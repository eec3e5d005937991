use tulna_rs::isomorphism::api::QueryIsomorphismAPI;

#[test]
fn test_simple_rspql_isomorphism() {
    let query1 = r#"
REGISTER RStream <output> AS
SELECT ?s ?p ?o
FROM NAMED WINDOW <w> ON STREAM <stream> [RANGE 10 STEP 5]
WHERE {
    WINDOW <w> { ?s ?p ?o . }
}
"#;

    let query2 = r#"
REGISTER RStream <output> AS
SELECT ?x ?y ?z
FROM NAMED WINDOW <w> ON STREAM <stream> [RANGE 10 STEP 5]
WHERE {
    WINDOW <w> { ?x ?y ?z . }
}
"#;

    let result = QueryIsomorphismAPI::is_isomorphic(query1, query2);
    assert!(result.is_ok());
    assert!(result.unwrap());
}

#[test]
fn test_rspql_with_prefixes() {
    let query1 = r#"
PREFIX ex: <http://example.org/>
REGISTER RStream ex:output AS
SELECT ?s ?p ?o
FROM NAMED WINDOW ex:w ON STREAM ex:stream [RANGE 10 STEP 5]
WHERE {
    WINDOW ex:w { ?s ?p ?o . }
}
"#;

    let query2 = r#"
PREFIX ex: <http://example.org/>
REGISTER RStream ex:output AS
SELECT ?a ?b ?c
FROM NAMED WINDOW ex:w ON STREAM ex:stream [RANGE 10 STEP 5]
WHERE {
    WINDOW ex:w { ?a ?b ?c . }
}
"#;

    let result = QueryIsomorphismAPI::is_isomorphic(query1, query2);
    assert!(result.is_ok());
    assert!(result.unwrap());
}

#[test]
fn test_rspql_istream_operator() {
    let query1 = r#"
REGISTER IStream <output> AS
SELECT ?sensor ?value
FROM NAMED WINDOW <w> ON STREAM <sensors> [RANGE 20 STEP 10]
WHERE {
    WINDOW <w> { ?sensor <http://example.org/hasValue> ?value . }
}
"#;

    let query2 = r#"
REGISTER IStream <output> AS
SELECT ?s ?v
FROM NAMED WINDOW <w> ON STREAM <sensors> [RANGE 20 STEP 10]
WHERE {
    WINDOW <w> { ?s <http://example.org/hasValue> ?v . }
}
"#;

    let result = QueryIsomorphismAPI::is_isomorphic(query1, query2);
    assert!(result.is_ok());
    assert!(result.unwrap());
}

#[test]
fn test_rspql_dstream_operator() {
    let query1 = r#"
REGISTER DStream <output> AS
SELECT ?s ?p ?o
FROM NAMED WINDOW <w> ON STREAM <stream> [RANGE 15 STEP 5]
WHERE {
    WINDOW <w> { ?s ?p ?o . }
}
"#;

    let query2 = r#"
REGISTER DStream <output> AS
SELECT ?x ?y ?z
FROM NAMED WINDOW <w> ON STREAM <stream> [RANGE 15 STEP 5]
WHERE {
    WINDOW <w> { ?x ?y ?z . }
}
"#;

    let result = QueryIsomorphismAPI::is_isomorphic(query1, query2);
    assert!(result.is_ok());
    assert!(result.unwrap());
}

#[test]
fn test_rspql_multiple_triples() {
    let query1 = r#"
PREFIX ex: <http://example.org/>
REGISTER RStream ex:output AS
SELECT ?sensor ?temp ?location
FROM NAMED WINDOW ex:w ON STREAM ex:stream [RANGE 30 STEP 10]
WHERE {
    WINDOW ex:w {
        ?sensor ex:temperature ?temp .
        ?sensor ex:location ?location .
    }
}
"#;

    let query2 = r#"
PREFIX ex: <http://example.org/>
REGISTER RStream ex:output AS
SELECT ?s ?t ?l
FROM NAMED WINDOW ex:w ON STREAM ex:stream [RANGE 30 STEP 10]
WHERE {
    WINDOW ex:w {
        ?s ex:temperature ?t .
        ?s ex:location ?l .
    }
}
"#;

    let result = QueryIsomorphismAPI::is_isomorphic(query1, query2);
    assert!(result.is_ok());
    assert!(result.unwrap());
}

#[test]
fn test_rspql_not_isomorphic_different_window_range() {
    let query1 = r#"
REGISTER RStream <output> AS
SELECT ?s ?p ?o
FROM NAMED WINDOW <w> ON STREAM <stream> [RANGE 10 STEP 5]
WHERE {
    WINDOW <w> { ?s ?p ?o . }
}
"#;

    let query2 = r#"
REGISTER RStream <output> AS
SELECT ?s ?p ?o
FROM NAMED WINDOW <w> ON STREAM <stream> [RANGE 20 STEP 5]
WHERE {
    WINDOW <w> { ?s ?p ?o . }
}
"#;

    let result = QueryIsomorphismAPI::is_isomorphic(query1, query2);
    assert!(result.is_ok());
    assert!(!result.unwrap());
}

#[test]
fn test_rspql_not_isomorphic_different_window_step() {
    let query1 = r#"
REGISTER RStream <output> AS
SELECT ?s ?p ?o
FROM NAMED WINDOW <w> ON STREAM <stream> [RANGE 10 STEP 5]
WHERE {
    WINDOW <w> { ?s ?p ?o . }
}
"#;

    let query2 = r#"
REGISTER RStream <output> AS
SELECT ?s ?p ?o
FROM NAMED WINDOW <w> ON STREAM <stream> [RANGE 10 STEP 10]
WHERE {
    WINDOW <w> { ?s ?p ?o . }
}
"#;

    let result = QueryIsomorphismAPI::is_isomorphic(query1, query2);
    assert!(result.is_ok());
    assert!(!result.unwrap());
}

#[test]
fn test_rspql_not_isomorphic_different_stream() {
    let query1 = r#"
REGISTER RStream <output> AS
SELECT ?s ?p ?o
FROM NAMED WINDOW <w> ON STREAM <stream1> [RANGE 10 STEP 5]
WHERE {
    WINDOW <w> { ?s ?p ?o . }
}
"#;

    let query2 = r#"
REGISTER RStream <output> AS
SELECT ?s ?p ?o
FROM NAMED WINDOW <w> ON STREAM <stream2> [RANGE 10 STEP 5]
WHERE {
    WINDOW <w> { ?s ?p ?o . }
}
"#;

    let result = QueryIsomorphismAPI::is_isomorphic(query1, query2);
    assert!(result.is_ok());
    assert!(!result.unwrap());
}

#[test]
fn test_rspql_not_isomorphic_different_window_name() {
    let query1 = r#"
REGISTER RStream <output> AS
SELECT ?s ?p ?o
FROM NAMED WINDOW <window1> ON STREAM <stream> [RANGE 10 STEP 5]
WHERE {
    WINDOW <window1> { ?s ?p ?o . }
}
"#;

    let query2 = r#"
REGISTER RStream <output> AS
SELECT ?s ?p ?o
FROM NAMED WINDOW <window2> ON STREAM <stream> [RANGE 10 STEP 5]
WHERE {
    WINDOW <window2> { ?s ?p ?o . }
}
"#;

    let result = QueryIsomorphismAPI::is_isomorphic(query1, query2);
    assert!(result.is_ok());
    assert!(!result.unwrap());
}


#[test]
fn test_rspql_detect_language() {
    let query = r#"
REGISTER RStream <output> AS
SELECT ?s ?p ?o
FROM NAMED WINDOW <w> ON STREAM <stream> [RANGE 10 STEP 5]
WHERE {
    WINDOW <w> { ?s ?p ?o . }
}
"#;

    let language = QueryIsomorphismAPI::detect_query_language(query);
    assert_eq!(language, tulna_rs::isomorphism::query_core::QueryLanguage::RSPQL);
}

#[test]
fn test_rspql_check_stream_parameters_match() {
    let query1 = r#"
REGISTER RStream <output> AS
SELECT ?s ?p ?o
FROM NAMED WINDOW <w> ON STREAM <mystream> [RANGE 10 STEP 5]
WHERE {
    WINDOW <w> { ?s ?p ?o . }
}
"#;

    let query2 = r#"
REGISTER RStream <output> AS
SELECT ?x ?y ?z
FROM NAMED WINDOW <w> ON STREAM <mystream> [RANGE 10 STEP 5]
WHERE {
    WINDOW <w> { ?x ?y ?z . }
}
"#;

    let result = QueryIsomorphismAPI::check_stream_parameters(query1, query2);
    assert!(result.is_ok());
    assert!(result.unwrap());
}

#[test]
fn test_rspql_check_stream_parameters_no_match() {
    let query1 = r#"
REGISTER RStream <output> AS
SELECT ?s ?p ?o
FROM NAMED WINDOW <w> ON STREAM <stream1> [RANGE 10 STEP 5]
WHERE {
    WINDOW <w> { ?s ?p ?o . }
}
"#;

    let query2 = r#"
REGISTER RStream <output> AS
SELECT ?s ?p ?o
FROM NAMED WINDOW <w> ON STREAM <stream2> [RANGE 10 STEP 5]
WHERE {
    WINDOW <w> { ?s ?p ?o . }
}
"#;

    let result = QueryIsomorphismAPI::check_stream_parameters(query1, query2);
    assert!(result.is_ok());
    assert!(!result.unwrap());
}

#[test]
fn test_rspql_check_window_names_match() {
    let query1 = r#"
REGISTER RStream <output> AS
SELECT ?s ?p ?o
FROM NAMED WINDOW <mywindow> ON STREAM <stream> [RANGE 10 STEP 5]
WHERE {
    WINDOW <mywindow> { ?s ?p ?o . }
}
"#;

    let query2 = r#"
REGISTER RStream <output> AS
SELECT ?x ?y ?z
FROM NAMED WINDOW <mywindow> ON STREAM <stream> [RANGE 10 STEP 5]
WHERE {
    WINDOW <mywindow> { ?x ?y ?z . }
}
"#;

    let result = QueryIsomorphismAPI::check_window_names(query1, query2);
    assert!(result.is_ok());
    assert!(result.unwrap());
}

#[test]
fn test_rspql_complex_pattern() {
    let query1 = r#"
PREFIX ex: <http://example.org/>
PREFIX rdf: <http://www.w3.org/1999/02/22-rdf-syntax-ns#>
REGISTER RStream ex:output AS
SELECT ?sensor ?reading ?timestamp
FROM NAMED WINDOW ex:w ON STREAM ex:sensorStream [RANGE 60 STEP 30]
WHERE {
    WINDOW ex:w {
        ?sensor rdf:type ex:TemperatureSensor .
        ?sensor ex:hasReading ?reading .
        ?sensor ex:timestamp ?timestamp .
    }
}
"#;

    let query2 = r#"
PREFIX ex: <http://example.org/>
PREFIX rdf: <http://www.w3.org/1999/02/22-rdf-syntax-ns#>
REGISTER RStream ex:output AS
SELECT ?s ?r ?t
FROM NAMED WINDOW ex:w ON STREAM ex:sensorStream [RANGE 60 STEP 30]
WHERE {
    WINDOW ex:w {
        ?s rdf:type ex:TemperatureSensor .
        ?s ex:hasReading ?r .
        ?s ex:timestamp ?t .
    }
}
"#;

    let result = QueryIsomorphismAPI::is_isomorphic(query1, query2);
    assert!(result.is_ok());
    assert!(result.unwrap());
}
