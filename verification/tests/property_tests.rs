use tulna_rs::graph::{GraphIsomorphism, Triple, TripleNode};
use tulna_rs::TulnaError;

fn var(name: &str) -> TripleNode {
    TripleNode::Variable(name.to_string())
}

fn iri(s: &str) -> TripleNode {
    TripleNode::IRI(s.to_string())
}

fn lit(s: &str) -> TripleNode {
    TripleNode::Literal(s.to_string())
}

fn blank(s: &str) -> TripleNode {
    TripleNode::BlankNode(s.to_string())
}

fn triple(s: TripleNode, p: TripleNode, o: TripleNode) -> Triple {
    Triple { subject: s, predicate: p, object: o }
}

// a trivial rename of both variables is isomorphic
#[test]
fn scenario_trivial_rename() {
    let g1 = vec![triple(var("a"), iri("knows"), var("b"))];
    let g2 = vec![triple(var("x"), iri("knows"), var("y"))];
    assert!(GraphIsomorphism::are_isomorphic(&g1, &g2).unwrap());
}

// a different predicate breaks isomorphism
#[test]
fn scenario_different_predicate() {
    let g1 = vec![triple(var("a"), iri("knows"), var("b"))];
    let g2 = vec![triple(var("a"), iri("likes"), var("b"))];
    assert!(!GraphIsomorphism::are_isomorphic(&g1, &g2).unwrap());
}

// a chain of three nodes, renamed
#[test]
fn scenario_chain_renamed() {
    let g1 = vec![
        triple(var("a"), iri("knows"), var("b")),
        triple(var("b"), iri("knows"), var("c")),
    ];
    let g2 = vec![
        triple(var("x"), iri("knows"), var("y")),
        triple(var("y"), iri("knows"), var("z")),
    ];
    assert!(GraphIsomorphism::are_isomorphic(&g1, &g2).unwrap());
}

// a 6-cycle and two disjoint 3-cycles are both 2-regular but not isomorphic:
// only the verifier catches this
#[test]
fn scenario_six_cycle_vs_two_triangles() {
    let g1 = vec![
        triple(var("1"), iri("next"), var("2")),
        triple(var("2"), iri("next"), var("3")),
        triple(var("3"), iri("next"), var("4")),
        triple(var("4"), iri("next"), var("5")),
        triple(var("5"), iri("next"), var("6")),
        triple(var("6"), iri("next"), var("1")),
    ];
    let g2 = vec![
        triple(var("a"), iri("next"), var("b")),
        triple(var("b"), iri("next"), var("c")),
        triple(var("c"), iri("next"), var("a")),
        triple(var("x"), iri("next"), var("y")),
        triple(var("y"), iri("next"), var("z")),
        triple(var("z"), iri("next"), var("x")),
    ];
    assert!(!GraphIsomorphism::are_isomorphic(&g1, &g2).unwrap());
}

// grounding through adjacent literals, with and without the literals swapped
#[test]
fn scenario_grounding_by_literals() {
    let g1 = vec![
        triple(var("p"), iri("name"), lit("Alice")),
        triple(var("q"), iri("name"), lit("Bob")),
    ];
    let g2 = vec![
        triple(var("x"), iri("name"), lit("Alice")),
        triple(var("y"), iri("name"), lit("Bob")),
    ];
    assert!(GraphIsomorphism::are_isomorphic(&g1, &g2).unwrap());
    let g3 = vec![
        triple(var("x"), iri("name"), lit("Bob")),
        triple(var("y"), iri("name"), lit("Alice")),
    ];
    assert!(GraphIsomorphism::are_isomorphic(&g1, &g3).unwrap());
}

// a 3-cycle against a renamed 3-cycle: every node looks alike on the first
// pass, so the speculative matcher has to pick a seed pair
#[test]
fn scenario_three_cycle_speculation() {
    let g1 = vec![
        triple(var("a"), iri("next"), var("b")),
        triple(var("b"), iri("next"), var("c")),
        triple(var("c"), iri("next"), var("a")),
    ];
    let g2 = vec![
        triple(var("x"), iri("next"), var("y")),
        triple(var("y"), iri("next"), var("z")),
        triple(var("z"), iri("next"), var("x")),
    ];
    assert!(GraphIsomorphism::are_isomorphic(&g1, &g2).unwrap());
}

// reflexivity on a mixed graph
#[test]
fn law_reflexivity_concrete() {
    let g = vec![
        triple(var("a"), iri("p"), blank("u")),
        triple(blank("u"), iri("q"), lit("v")),
        triple(iri("s"), iri("p"), iri("o")),
    ];
    assert!(GraphIsomorphism::are_isomorphic(&g, &g).unwrap());
}

// permuting the triples does not change the answer
#[test]
fn law_order_invariance_concrete() {
    let g1 = vec![
        triple(var("a"), iri("p"), var("b")),
        triple(var("b"), iri("q"), lit("v")),
        triple(iri("s"), iri("p"), iri("o")),
    ];
    let g2 = vec![g1[2].clone(), g1[0].clone(), g1[1].clone()];
    assert!(GraphIsomorphism::are_isomorphic(&g1, &g2).unwrap());
    assert!(GraphIsomorphism::are_isomorphic(&g2, &g1).unwrap());
}

// renaming variables injectively preserves isomorphism
#[test]
fn law_variable_renaming_concrete() {
    let g1 = vec![
        triple(var("a"), iri("p"), var("b")),
        triple(var("b"), iri("p"), var("a")),
    ];
    let g2 = vec![
        triple(var("fresh1"), iri("p"), var("fresh2")),
        triple(var("fresh2"), iri("p"), var("fresh1")),
    ];
    assert!(GraphIsomorphism::are_isomorphic(&g1, &g2).unwrap());
}

// renaming blank node ids injectively preserves isomorphism
#[test]
fn law_blank_renaming_concrete() {
    let g1 = vec![
        triple(blank("m"), iri("p"), blank("n")),
        triple(blank("n"), iri("p"), blank("m")),
    ];
    let g2 = vec![
        triple(blank("u1"), iri("p"), blank("u2")),
        triple(blank("u2"), iri("p"), blank("u1")),
    ];
    assert!(GraphIsomorphism::are_isomorphic(&g1, &g2).unwrap());
}

// the answer does not depend on the order of the two graphs
#[test]
fn law_symmetry_concrete() {
    let g1 = vec![
        triple(var("a"), iri("next"), var("b")),
        triple(var("b"), iri("next"), var("a")),
    ];
    let g2 = vec![triple(var("x"), iri("next"), var("x"))];
    assert_eq!(
        GraphIsomorphism::are_isomorphic(&g1, &g2).unwrap(),
        GraphIsomorphism::are_isomorphic(&g2, &g1).unwrap()
    );
    let g3 = vec![
        triple(var("u"), iri("next"), var("v")),
        triple(var("v"), iri("next"), var("u")),
    ];
    assert_eq!(
        GraphIsomorphism::are_isomorphic(&g1, &g3).unwrap(),
        GraphIsomorphism::are_isomorphic(&g3, &g1).unwrap()
    );
}

// graphs of different size after deduplication are never isomorphic
#[test]
fn law_size_discrimination_concrete() {
    let g1 = vec![triple(iri("a"), iri("p"), iri("b"))];
    let g2 = vec![
        triple(iri("a"), iri("p"), iri("b")),
        triple(iri("a"), iri("p"), iri("c")),
    ];
    assert!(!GraphIsomorphism::are_isomorphic(&g1, &g2).unwrap());
}

// duplicate triples collapse before the size comparison
#[test]
fn law_duplicates_collapse() {
    let g1 = vec![
        triple(iri("a"), iri("p"), iri("b")),
        triple(iri("a"), iri("p"), iri("b")),
    ];
    let g2 = vec![triple(iri("a"), iri("p"), iri("b"))];
    assert!(GraphIsomorphism::are_isomorphic(&g1, &g2).unwrap());
}

// graphs that differ in a ground triple are never isomorphic
#[test]
fn law_ground_triple_necessity_concrete() {
    let g1 = vec![
        triple(var("a"), iri("p"), var("b")),
        triple(iri("s"), iri("p"), iri("o1")),
    ];
    let g2 = vec![
        triple(var("a"), iri("p"), var("b")),
        triple(iri("s"), iri("p"), iri("o2")),
    ];
    assert!(!GraphIsomorphism::are_isomorphic(&g1, &g2).unwrap());
}

// an IRI payload that begins with the unlabeled prefix is invalid input
#[test]
fn error_invalid_iri_payload() {
    let g1 = vec![triple(iri("_:x"), iri("p"), iri("o"))];
    let g2 = vec![triple(iri("_:x"), iri("p"), iri("o"))];
    let r = GraphIsomorphism::are_isomorphic(&g1, &g2);
    assert!(matches!(r, Err(TulnaError::InvalidInput(_))));
}

// a literal payload that begins with the unlabeled prefix is invalid input
#[test]
fn error_invalid_literal_payload() {
    let g1 = vec![triple(var("a"), iri("p"), lit("_:oops"))];
    let g2 = vec![triple(var("a"), iri("p"), lit("x"))];
    let r = GraphIsomorphism::are_isomorphic(&g1, &g2);
    assert!(matches!(r, Err(TulnaError::InvalidInput(_))));
}

// the exact normalized encoding: variables are numbered in first-occurrence
// order under the _:v prefix, blank ids keep their id under _:u, IRIs are
// angle-wrapped and literals quoted
#[test]
fn normalization_exact_encoding() {
    let bgp = vec![
        triple(var("b"), iri("p"), lit("w")),
        triple(blank("id7"), iri("q"), var("b")),
        triple(var("c"), iri("r"), var("b")),
    ];
    let n = GraphIsomorphism::normalize_bgp(&bgp);
    assert_eq!(n.len(), 3);
    assert_eq!(n[0].subject, "_:v0");
    assert_eq!(n[0].predicate, "<p>");
    assert_eq!(n[0].object, "\"w\"");
    assert_eq!(n[1].subject, "_:uid7");
    assert_eq!(n[1].predicate, "<q>");
    assert_eq!(n[1].object, "_:v0");
    assert_eq!(n[2].subject, "_:v1");
    assert_eq!(n[2].predicate, "<r>");
    assert_eq!(n[2].object, "_:v0");
}

// a variable and a blank node sharing a spelling stay distinct
#[test]
fn normalization_disjoint_pools() {
    let g1 = vec![triple(var("x"), iri("p"), blank("x"))];
    let n = GraphIsomorphism::normalize_bgp(&g1);
    assert_eq!(n[0].subject, "_:v0");
    assert_eq!(n[0].object, "_:ux");
    // and the two unlabeled nodes can still be matched structurally
    let g2 = vec![triple(blank("x"), iri("p"), var("x"))];
    assert!(GraphIsomorphism::are_isomorphic(&g1, &g2).unwrap());
}

// a variable in predicate position is treated as just another unlabeled term
#[test]
fn variable_predicate_position() {
    let g1 = vec![triple(var("s"), var("p"), var("o"))];
    let g2 = vec![triple(var("x"), var("y"), var("z"))];
    assert!(GraphIsomorphism::are_isomorphic(&g1, &g2).unwrap());
    let g3 = vec![triple(var("x"), iri("p"), var("z"))];
    assert!(!GraphIsomorphism::are_isomorphic(&g1, &g3).unwrap());
}

// empty graphs are isomorphic; an empty and a nonempty one are not
#[test]
fn empty_graphs() {
    let none: Vec<Triple> = Vec::new();
    let one = vec![triple(iri("a"), iri("p"), iri("b"))];
    assert!(GraphIsomorphism::are_isomorphic(&none, &none).unwrap());
    assert!(!GraphIsomorphism::are_isomorphic(&none, &one).unwrap());
}

// a literal and an IRI with the same payload stay distinguishable
#[test]
fn literal_iri_distinct() {
    let g1 = vec![triple(var("a"), iri("p"), lit("x"))];
    let g2 = vec![triple(var("a"), iri("p"), iri("x"))];
    assert!(!GraphIsomorphism::are_isomorphic(&g1, &g2).unwrap());
}
