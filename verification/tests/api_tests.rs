use tulna_rs::isomorphism::api::QueryIsomorphismAPI;

#[test]
fn test_detect_language() {
    let sparql = "SELECT * WHERE { ?s ?p ?o }";
    assert_eq!(
        QueryIsomorphismAPI::detect_query_language(sparql),
        tulna_rs::isomorphism::query_core::QueryLanguage::SPARQL
    );
}

#[test]
fn test_extract_bgp() {
    let query = "SELECT * WHERE { ?s <http://p> ?o }";
    let bgp = QueryIsomorphismAPI::extract_bgp(query).unwrap();
    assert_eq!(bgp.len(), 1);
}

#[test]
fn test_sparql_isomorphism() {
    let q1 = "SELECT ?s ?p ?o WHERE { ?s ?p ?o }";
    let q2 = "SELECT ?x ?y ?z WHERE { ?x ?y ?z }";
    assert!(QueryIsomorphismAPI::is_isomorphic(q1, q2).unwrap());
}

#[test]
fn test_compare_queries() {
    let q1 = "SELECT ?s ?p ?o WHERE { ?s ?p ?o }";
    let q2 = "SELECT ?x ?y ?z WHERE { ?x ?y ?z }";
    let result = QueryIsomorphismAPI::compare_queries(q1, q2).unwrap();
    assert!(result.is_isomorphic);
    assert!(result.same_language);
    assert!(result.same_bgp_size);
    assert!(result.bgp_isomorphic);
}
