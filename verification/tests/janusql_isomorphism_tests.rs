use tulna_rs::isomorphism::api::QueryIsomorphismAPI;

#[test]
fn test_simple_janusql_live_window_isomorphism() {
    let query1 = r#"
REGISTER RStream <output> AS
SELECT ?s ?p ?o
FROM NAMED WINDOW <w> ON STREAM <stream> [RANGE 10 STEP 5]
WHERE {
    WINDOW <w> { ?s ?p ?o . }
}
"#;

    let query2 = r#"
REGISTER RStream <output> AS
SELECT ?x ?y ?z
FROM NAMED WINDOW <w> ON STREAM <stream> [RANGE 10 STEP 5]
WHERE {
    WINDOW <w> { ?x ?y ?z . }
}
"#;

    let result = QueryIsomorphismAPI::is_isomorphic(query1, query2);
    assert!(result.is_ok());
    assert!(result.unwrap());
}

#[test]
fn test_janusql_historical_sliding_window_isomorphism() {
    let query1 = r#"
PREFIX ex: <http://example.org/>
REGISTER RStream ex:output AS
SELECT ?s ?p ?o
FROM NAMED WINDOW ex:w ON STREAM ex:stream [OFFSET 0 RANGE 100 STEP 10]
WHERE {
    WINDOW ex:w { ?s ?p ?o . }
}
"#;

    let query2 = r#"
PREFIX ex: <http://example.org/>
REGISTER RStream ex:output AS
SELECT ?a ?b ?c
FROM NAMED WINDOW ex:w ON STREAM ex:stream [OFFSET 0 RANGE 100 STEP 10]
WHERE {
    WINDOW ex:w { ?a ?b ?c . }
}
"#;

    let result = QueryIsomorphismAPI::is_isomorphic(query1, query2);
    assert!(result.is_ok());
    assert!(result.unwrap());
}

#[test]
fn test_janusql_historical_fixed_window_isomorphism() {
    let query1 = r#"
PREFIX ex: <http://example.org/>
SELECT ?sensor ?value
FROM NAMED WINDOW ex:w ON STREAM ex:sensors [START 1000 END 2000]
WHERE {
    WINDOW ex:w { ?sensor ex:hasValue ?value . }
}
"#;

    let query2 = r#"
PREFIX ex: <http://example.org/>
SELECT ?s ?v
FROM NAMED WINDOW ex:w ON STREAM ex:sensors [START 1000 END 2000]
WHERE {
    WINDOW ex:w { ?s ex:hasValue ?v . }
}
"#;

    let result = QueryIsomorphismAPI::is_isomorphic(query1, query2);
    assert!(result.is_ok());
    assert!(result.unwrap());
}

#[test]
fn test_janusql_with_prefixes_isomorphic() {
    let query1 = r#"
PREFIX ex: <http://example.org/>
PREFIX rdf: <http://www.w3.org/1999/02/22-rdf-syntax-ns#>
REGISTER RStream ex:output AS
SELECT ?device ?measurement
FROM NAMED WINDOW ex:window ON STREAM ex:deviceStream [RANGE 30 STEP 15]
WHERE {
    WINDOW ex:window {
        ?device rdf:type ex:IoTDevice .
        ?device ex:measurement ?measurement .
    }
}
"#;

    let query2 = r#"
PREFIX ex: <http://example.org/>
PREFIX rdf: <http://www.w3.org/1999/02/22-rdf-syntax-ns#>
REGISTER RStream ex:output AS
SELECT ?d ?m
FROM NAMED WINDOW ex:window ON STREAM ex:deviceStream [RANGE 30 STEP 15]
WHERE {
    WINDOW ex:window {
        ?d rdf:type ex:IoTDevice .
        ?d ex:measurement ?m .
    }
}
"#;

    let result = QueryIsomorphismAPI::is_isomorphic(query1, query2);
    assert!(result.is_ok());
    assert!(result.unwrap());
}

#[test]
fn test_janusql_multiple_triples_isomorphic() {
    let query1 = r#"
PREFIX ex: <http://example.org/>
REGISTER IStream ex:output AS
SELECT ?sensor ?temp ?location ?timestamp
FROM NAMED WINDOW ex:w ON STREAM ex:stream [RANGE 60 STEP 20]
WHERE {
    WINDOW ex:w {
        ?sensor ex:temperature ?temp .
        ?sensor ex:location ?location .
        ?sensor ex:timestamp ?timestamp .
    }
}
"#;

    let query2 = r#"
PREFIX ex: <http://example.org/>
REGISTER IStream ex:output AS
SELECT ?s ?t ?l ?ts
FROM NAMED WINDOW ex:w ON STREAM ex:stream [RANGE 60 STEP 20]
WHERE {
    WINDOW ex:w {
        ?s ex:temperature ?t .
        ?s ex:location ?l .
        ?s ex:timestamp ?ts .
    }
}
"#;

    let result = QueryIsomorphismAPI::is_isomorphic(query1, query2);
    assert!(result.is_ok());
    assert!(result.unwrap());
}

#[test]
fn test_janusql_not_isomorphic_different_offset() {
    let query1 = r#"
PREFIX ex: <http://example.org/>
SELECT ?s ?p ?o
FROM NAMED WINDOW ex:w ON STREAM ex:stream [OFFSET 0 RANGE 100 STEP 10]
WHERE {
    WINDOW ex:w { ?s ?p ?o . }
}
"#;

    let query2 = r#"
PREFIX ex: <http://example.org/>
SELECT ?s ?p ?o
FROM NAMED WINDOW ex:w ON STREAM ex:stream [OFFSET 50 RANGE 100 STEP 10]
WHERE {
    WINDOW ex:w { ?s ?p ?o . }
}
"#;

    let result = QueryIsomorphismAPI::is_isomorphic(query1, query2);
    assert!(result.is_ok());
    assert!(!result.unwrap());
}

#[test]
fn test_janusql_not_isomorphic_different_start_time() {
    let query1 = r#"
PREFIX ex: <http://example.org/>
SELECT ?s ?p ?o
FROM NAMED WINDOW ex:w ON STREAM ex:stream [START 1000 END 2000]
WHERE {
    WINDOW ex:w { ?s ?p ?o . }
}
"#;

    let query2 = r#"
PREFIX ex: <http://example.org/>
SELECT ?s ?p ?o
FROM NAMED WINDOW ex:w ON STREAM ex:stream [START 1500 END 2000]
WHERE {
    WINDOW ex:w { ?s ?p ?o . }
}
"#;

    let result = QueryIsomorphismAPI::is_isomorphic(query1, query2);
    assert!(result.is_ok());
    assert!(!result.unwrap());
}

#[test]
fn test_janusql_not_isomorphic_different_end_time() {
    let query1 = r#"
PREFIX ex: <http://example.org/>
SELECT ?s ?p ?o
FROM NAMED WINDOW ex:w ON STREAM ex:stream [START 1000 END 2000]
WHERE {
    WINDOW ex:w { ?s ?p ?o . }
}
"#;

    let query2 = r#"
PREFIX ex: <http://example.org/>
SELECT ?s ?p ?o
FROM NAMED WINDOW ex:w ON STREAM ex:stream [START 1000 END 3000]
WHERE {
    WINDOW ex:w { ?s ?p ?o . }
}
"#;

    let result = QueryIsomorphismAPI::is_isomorphic(query1, query2);
    assert!(result.is_ok());
    assert!(!result.unwrap());
}

#[test]
fn test_janusql_not_isomorphic_different_range() {
    let query1 = r#"
REGISTER RStream <output> AS
SELECT ?s ?p ?o
FROM NAMED WINDOW <w> ON STREAM <stream> [RANGE 10 STEP 5]
WHERE {
    WINDOW <w> { ?s ?p ?o . }
}
"#;

    let query2 = r#"
REGISTER RStream <output> AS
SELECT ?s ?p ?o
FROM NAMED WINDOW <w> ON STREAM <stream> [RANGE 20 STEP 5]
WHERE {
    WINDOW <w> { ?s ?p ?o . }
}
"#;

    let result = QueryIsomorphismAPI::is_isomorphic(query1, query2);
    assert!(result.is_ok());
    assert!(!result.unwrap());
}

#[test]
fn test_janusql_not_isomorphic_different_step() {
    let query1 = r#"
REGISTER RStream <output> AS
SELECT ?s ?p ?o
FROM NAMED WINDOW <w> ON STREAM <stream> [RANGE 10 STEP 5]
WHERE {
    WINDOW <w> { ?s ?p ?o . }
}
"#;

    let query2 = r#"
REGISTER RStream <output> AS
SELECT ?s ?p ?o
FROM NAMED WINDOW <w> ON STREAM <stream> [RANGE 10 STEP 10]
WHERE {
    WINDOW <w> { ?s ?p ?o . }
}
"#;

    let result = QueryIsomorphismAPI::is_isomorphic(query1, query2);
    assert!(result.is_ok());
    assert!(!result.unwrap());
}

#[test]
fn test_janusql_not_isomorphic_different_stream() {
    let query1 = r#"
PREFIX ex: <http://example.org/>
REGISTER RStream ex:output AS
SELECT ?s ?p ?o
FROM NAMED WINDOW ex:w ON STREAM ex:stream1 [RANGE 10 STEP 5]
WHERE {
    WINDOW ex:w { ?s ?p ?o . }
}
"#;

    let query2 = r#"
PREFIX ex: <http://example.org/>
REGISTER RStream ex:output AS
SELECT ?s ?p ?o
FROM NAMED WINDOW ex:w ON STREAM ex:stream2 [RANGE 10 STEP 5]
WHERE {
    WINDOW ex:w { ?s ?p ?o . }
}
"#;

    let result = QueryIsomorphismAPI::is_isomorphic(query1, query2);
    assert!(result.is_ok());
    assert!(!result.unwrap());
}

#[test]
fn test_janusql_not_isomorphic_different_window_name() {
    let query1 = r#"
PREFIX ex: <http://example.org/>
REGISTER RStream ex:output AS
SELECT ?s ?p ?o
FROM NAMED WINDOW ex:window1 ON STREAM ex:stream [RANGE 10 STEP 5]
WHERE {
    WINDOW ex:window1 { ?s ?p ?o . }
}
"#;

    let query2 = r#"
PREFIX ex: <http://example.org/>
REGISTER RStream ex:output AS
SELECT ?s ?p ?o
FROM NAMED WINDOW ex:window2 ON STREAM ex:stream [RANGE 10 STEP 5]
WHERE {
    WINDOW ex:window2 { ?s ?p ?o . }
}
"#;

    let result = QueryIsomorphismAPI::is_isomorphic(query1, query2);
    assert!(result.is_ok());
    assert!(!result.unwrap());
}


#[test]
fn test_janusql_detect_language() {
    // JanusQL is detected by presence of OFFSET, START, or END keywords
    let query = r#"
REGISTER RStream <output> AS
SELECT ?s ?p ?o
FROM NAMED WINDOW <w> ON STREAM <stream> [OFFSET 0 RANGE 10 STEP 5]
WHERE {
    WINDOW <w> { ?s ?p ?o . }
}
"#;

    let language = QueryIsomorphismAPI::detect_query_language(query);
    assert_eq!(
        language,
        tulna_rs::isomorphism::query_core::QueryLanguage::JanusQL
    );
}

#[test]
fn test_janusql_complex_temporal_query() {
    let query1 = r#"
PREFIX ex: <http://example.org/>
PREFIX rdf: <http://www.w3.org/1999/02/22-rdf-syntax-ns#>
PREFIX xsd: <http://www.w3.org/2001/XMLSchema#>
REGISTER RStream ex:output AS
SELECT ?vehicle ?speed ?location ?time
FROM NAMED WINDOW ex:trafficWindow ON STREAM ex:trafficStream [RANGE 120 STEP 60]
WHERE {
    WINDOW ex:trafficWindow {
        ?vehicle rdf:type ex:Vehicle .
        ?vehicle ex:hasSpeed ?speed .
        ?vehicle ex:atLocation ?location .
        ?vehicle ex:timestamp ?time .
    }
}
"#;

    let query2 = r#"
PREFIX ex: <http://example.org/>
PREFIX rdf: <http://www.w3.org/1999/02/22-rdf-syntax-ns#>
PREFIX xsd: <http://www.w3.org/2001/XMLSchema#>
REGISTER RStream ex:output AS
SELECT ?v ?s ?l ?t
FROM NAMED WINDOW ex:trafficWindow ON STREAM ex:trafficStream [RANGE 120 STEP 60]
WHERE {
    WINDOW ex:trafficWindow {
        ?v rdf:type ex:Vehicle .
        ?v ex:hasSpeed ?s .
        ?v ex:atLocation ?l .
        ?v ex:timestamp ?t .
    }
}
"#;

    let result = QueryIsomorphismAPI::is_isomorphic(query1, query2);
    assert!(result.is_ok());
    assert!(result.unwrap());
}

#[test]
fn test_janusql_historical_window_with_literal() {
    let query1 = r#"
PREFIX ex: <http://example.org/>
SELECT ?sensor
FROM NAMED WINDOW ex:w ON STREAM ex:stream [START 1000 END 2000]
WHERE {
    WINDOW ex:w { ?sensor ex:status "active" . }
}
"#;

    let query2 = r#"
PREFIX ex: <http://example.org/>
SELECT ?s
FROM NAMED WINDOW ex:w ON STREAM ex:stream [START 1000 END 2000]
WHERE {
    WINDOW ex:w { ?s ex:status "active" . }
}
"#;

    let result = QueryIsomorphismAPI::is_isomorphic(query1, query2);
    assert!(result.is_ok());
    assert!(result.unwrap());
}

#[test]
fn test_janusql_dstream_operator() {
    let query1 = r#"
PREFIX ex: <http://example.org/>
REGISTER DStream ex:output AS
SELECT ?s ?p ?o
FROM NAMED WINDOW ex:w ON STREAM ex:stream [RANGE 15 STEP 5]
WHERE {
    WINDOW ex:w { ?s ?p ?o . }
}
"#;

    let query2 = r#"
PREFIX ex: <http://example.org/>
REGISTER DStream ex:output AS
SELECT ?x ?y ?z
FROM NAMED WINDOW ex:w ON STREAM ex:stream [RANGE 15 STEP 5]
WHERE {
    WINDOW ex:w { ?x ?y ?z . }
}
"#;

    let result = QueryIsomorphismAPI::is_isomorphic(query1, query2);
    assert!(result.is_ok());
    assert!(result.unwrap());
}

#[test]
fn test_janusql_check_stream_parameters() {
    let query1 = r#"
REGISTER RStream <output> AS
SELECT ?s ?p ?o
FROM NAMED WINDOW <w> ON STREAM <mystream> [RANGE 10 STEP 5]
WHERE {
    WINDOW <w> { ?s ?p ?o . }
}
"#;

    let query2 = r#"
REGISTER RStream <output> AS
SELECT ?x ?y ?z
FROM NAMED WINDOW <w> ON STREAM <mystream> [RANGE 10 STEP 5]
WHERE {
    WINDOW <w> { ?x ?y ?z . }
}
"#;

    let result = QueryIsomorphismAPI::check_stream_parameters(query1, query2);
    assert!(result.is_ok());
    assert!(result.unwrap());
}

#[test]
fn test_janusql_chain_pattern_isomorphic() {
    let query1 = r#"
PREFIX ex: <http://example.org/>
REGISTER RStream ex:output AS
SELECT ?a ?b ?c
FROM NAMED WINDOW ex:w ON STREAM ex:stream [RANGE 30 STEP 10]
WHERE {
    WINDOW ex:w {
        ?a ex:knows ?b .
        ?b ex:knows ?c .
    }
}
"#;

    let query2 = r#"
PREFIX ex: <http://example.org/>
REGISTER RStream ex:output AS
SELECT ?x ?y ?z
FROM NAMED WINDOW ex:w ON STREAM ex:stream [RANGE 30 STEP 10]
WHERE {
    WINDOW ex:w {
        ?x ex:knows ?y .
        ?y ex:knows ?z .
    }
}
"#;

    let result = QueryIsomorphismAPI::is_isomorphic(query1, query2);
    assert!(result.is_ok());
    assert!(result.unwrap());
}
