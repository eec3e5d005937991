use tulna_rs::isomorphism::query_core::{QueryIsomorphism, QueryLanguage, TripleNode};

#[test]
fn test_detect_sparql() {
    let query = "SELECT ?s ?p ?o WHERE { ?s ?p ?o }";
    assert_eq!(
        QueryIsomorphism::detect_query_type(query),
        QueryLanguage::SPARQL
    );
}

#[test]
fn test_detect_rspql() {
    let query = "REGISTER STREAM <output> AS SELECT ?s ?p ?o FROM NAMED WINDOW <w> ON STREAM <s> [RANGE 10 STEP 5]";
    assert_eq!(
        QueryIsomorphism::detect_query_type(query),
        QueryLanguage::RSPQL
    );
}

#[test]
fn test_parse_node_variable() {
    let node = QueryIsomorphism::parse_node("?var");
    assert!(matches!(node, TripleNode::Variable(_)));
}

#[test]
fn test_parse_node_iri() {
    let node = QueryIsomorphism::parse_node("<http://example.org/resource>");
    assert!(matches!(node, TripleNode::IRI(_)));
}

#[test]
fn test_bgp_extraction() {
    let where_clause = "WHERE { ?s <http://example.org/p> ?o . }";
    let bgp = QueryIsomorphism::extract_bgp_from_where(where_clause);
    assert_eq!(bgp.len(), 1);
}
