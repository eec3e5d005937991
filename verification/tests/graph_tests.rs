use tulna_rs::graph::{GraphIsomorphism, NormalizedTriple, Triple, TripleNode};

#[test]
fn test_normalize_bgp() {
    let bgp = vec![Triple {
        subject: TripleNode::Variable("s".to_string()),
        predicate: TripleNode::IRI("http://example.org/predicate".to_string()),
        object: TripleNode::Variable("o".to_string()),
    }];

    let normalized = GraphIsomorphism::normalize_bgp(&bgp);
    assert_eq!(normalized.len(), 1);
    assert!(normalized[0].subject.starts_with("_:"));
    assert!(normalized[0].object.starts_with("_:"));
}

#[test]
fn test_isomorphic_bgps() {
    let bgp1 = vec![Triple {
        subject: TripleNode::Variable("x".to_string()),
        predicate: TripleNode::IRI("http://example.org/p".to_string()),
        object: TripleNode::Variable("y".to_string()),
    }];

    let bgp2 = vec![Triple {
        subject: TripleNode::Variable("a".to_string()),
        predicate: TripleNode::IRI("http://example.org/p".to_string()),
        object: TripleNode::Variable("b".to_string()),
    }];

    let result = GraphIsomorphism::check_bgp_isomorphism(&bgp1, &bgp2);
    assert!(result.is_ok());
    assert!(result.unwrap());
}

#[test]
fn test_non_isomorphic_bgps() {
    let bgp1 = vec![Triple {
        subject: TripleNode::Variable("x".to_string()),
        predicate: TripleNode::IRI("http://example.org/p1".to_string()),
        object: TripleNode::Variable("y".to_string()),
    }];

    let bgp2 = vec![Triple {
        subject: TripleNode::Variable("a".to_string()),
        predicate: TripleNode::IRI("http://example.org/p2".to_string()),
        object: TripleNode::Variable("b".to_string()),
    }];

    let result = GraphIsomorphism::check_bgp_isomorphism(&bgp1, &bgp2);
    assert!(result.is_ok());
    assert!(!result.unwrap());
}

#[test]
fn test_multiple_triples() {
    let bgp1 = vec![
        Triple {
            subject: TripleNode::Variable("x".to_string()),
            predicate: TripleNode::IRI("http://example.org/p".to_string()),
            object: TripleNode::Variable("y".to_string()),
        },
        Triple {
            subject: TripleNode::Variable("y".to_string()),
            predicate: TripleNode::IRI("http://example.org/q".to_string()),
            object: TripleNode::Literal("value".to_string()),
        },
    ];

    let bgp2 = vec![
        Triple {
            subject: TripleNode::Variable("a".to_string()),
            predicate: TripleNode::IRI("http://example.org/p".to_string()),
            object: TripleNode::Variable("b".to_string()),
        },
        Triple {
            subject: TripleNode::Variable("b".to_string()),
            predicate: TripleNode::IRI("http://example.org/q".to_string()),
            object: TripleNode::Literal("value".to_string()),
        },
    ];

    let result = GraphIsomorphism::check_bgp_isomorphism(&bgp1, &bgp2);
    assert!(result.is_ok());
    assert!(result.unwrap());
}

#[test]
fn test_hash_string() {
    let hash1 = GraphIsomorphism::hash_string("test").unwrap();
    let hash2 = GraphIsomorphism::hash_string("test").unwrap();
    let hash3 = GraphIsomorphism::hash_string("different").unwrap();

    assert_eq!(hash1, hash2);
    assert_ne!(hash1, hash3);
}

#[test]
fn test_get_graph_blank_nodes() {
    let graph = vec![NormalizedTriple {
        subject: "_:b0".to_string(),
        predicate: "<http://example.org/p>".to_string(),
        object: "_:b1".to_string(),
    }];

    let blanks = GraphIsomorphism::get_graph_blank_nodes(&graph);
    assert_eq!(blanks.len(), 2);
    assert!(blanks.contains(&"_:b0".to_string()));
    assert!(blanks.contains(&"_:b1".to_string()));
}

#[test]
fn test_complex_isomorphism() {
    let bgp1 = vec![
        Triple {
            subject: TripleNode::Variable("x".to_string()),
            predicate: TripleNode::IRI("http://example.org/p".to_string()),
            object: TripleNode::Variable("y".to_string()),
        },
        Triple {
            subject: TripleNode::Variable("x".to_string()),
            predicate: TripleNode::IRI("http://example.org/q".to_string()),
            object: TripleNode::Variable("z".to_string()),
        },
        Triple {
            subject: TripleNode::Variable("y".to_string()),
            predicate: TripleNode::IRI("http://example.org/r".to_string()),
            object: TripleNode::Literal("A".to_string()),
        },
        Triple {
            subject: TripleNode::Variable("z".to_string()),
            predicate: TripleNode::IRI("http://example.org/r".to_string()),
            object: TripleNode::Literal("B".to_string()),
        },
    ];

    let bgp2 = vec![
        Triple {
            subject: TripleNode::Variable("a".to_string()),
            predicate: TripleNode::IRI("http://example.org/p".to_string()),
            object: TripleNode::Variable("b".to_string()),
        },
        Triple {
            subject: TripleNode::Variable("a".to_string()),
            predicate: TripleNode::IRI("http://example.org/q".to_string()),
            object: TripleNode::Variable("c".to_string()),
        },
        Triple {
            subject: TripleNode::Variable("b".to_string()),
            predicate: TripleNode::IRI("http://example.org/r".to_string()),
            object: TripleNode::Literal("A".to_string()),
        },
        Triple {
            subject: TripleNode::Variable("c".to_string()),
            predicate: TripleNode::IRI("http://example.org/r".to_string()),
            object: TripleNode::Literal("B".to_string()),
        },
    ];

    let result = GraphIsomorphism::check_bgp_isomorphism(&bgp1, &bgp2);
    assert!(result.is_ok());
    assert!(result.unwrap());
}

#[test]
fn test_pathological_case_many_blank_nodes() {
    let names1 = ["v1", "v2", "v3", "v4", "v5", "v6"];
    let names2 = ["x1", "x2", "x3", "x4", "x5", "x6"];
    let values = ["A", "B", "C", "D", "E", "F"];
    let mut bgp1 = Vec::new();
    let mut bgp2 = Vec::new();
    for i in 0..6 {
        bgp1.push(Triple {
            subject: TripleNode::Variable(names1[i].to_string()),
            predicate: TripleNode::IRI("http://example.org/p1".to_string()),
            object: TripleNode::Literal(values[i].to_string()),
        });
        bgp2.push(Triple {
            subject: TripleNode::Variable(names2[i].to_string()),
            predicate: TripleNode::IRI("http://example.org/p1".to_string()),
            object: TripleNode::Literal(values[i].to_string()),
        });
    }

    let result = GraphIsomorphism::check_bgp_isomorphism(&bgp1, &bgp2);
    assert!(result.is_ok());
    assert!(result.unwrap());
}

#[test]
fn test_non_isomorphic_with_many_nodes() {
    let bgp1 = vec![
        Triple {
            subject: TripleNode::Variable("v1".to_string()),
            predicate: TripleNode::IRI("http://example.org/p1".to_string()),
            object: TripleNode::Literal("A".to_string()),
        },
        Triple {
            subject: TripleNode::Variable("v2".to_string()),
            predicate: TripleNode::IRI("http://example.org/p1".to_string()),
            object: TripleNode::Literal("B".to_string()),
        },
    ];

    let bgp2 = vec![
        Triple {
            subject: TripleNode::Variable("x1".to_string()),
            predicate: TripleNode::IRI("http://example.org/p1".to_string()),
            object: TripleNode::Literal("X".to_string()),
        },
        Triple {
            subject: TripleNode::Variable("x2".to_string()),
            predicate: TripleNode::IRI("http://example.org/p1".to_string()),
            object: TripleNode::Literal("Y".to_string()),
        },
    ];

    let result = GraphIsomorphism::check_bgp_isomorphism(&bgp1, &bgp2);
    assert!(result.is_ok());
    assert!(!result.unwrap());
}
