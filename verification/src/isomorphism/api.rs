use vstd::prelude::*;

use crate::error::TulnaError;
use crate::isomorphism::model::spec_normalize;
use crate::isomorphism::query_core::{
    spec_detect_query_type, spec_is_isomorphic_errs, spec_parse_errs, spec_parse_query,
    spec_stream_params_eq, IsomorphismQuery, QueryIsomorphism, QueryLanguage, Triple,
};
use crate::text::{chars_of, push_str_chars, string_from_chars};

verus! {

// ---------------------------------------------------------------------------
// The public face of query equivalence
// ---------------------------------------------------------------------------

/// High-level interface for comparing queries across the supported languages.
pub struct QueryIsomorphismAPI;

impl QueryIsomorphismAPI {
    /// Decides whether two queries are equivalent: same stream and window
    /// parameters (for streaming languages) and isomorphic triple patterns.
    /// A `true` answer is sound: some renaming of unlabeled nodes carries one
    /// normalized pattern onto the other. Differing stream parameters or
    /// window names under a streaming language always answer `false`, and a
    /// `true` answer implies the two patterns agree in deduplicated size and
    /// in their ground triples.
    pub fn is_isomorphic(query1: &str, query2: &str) -> (r: Result<bool, TulnaError>)
        ensures
            (r matches Ok(b) && b) ==> crate::isomorphism::model::spec_isomorphic(
                spec_normalize(spec_parse_query(query1@).bgp),
                spec_normalize(spec_parse_query(query2@).bgp),
            ),
            ({
                let p1 = spec_parse_query(query1@);
                let p2 = spec_parse_query(query2@);
                r is Ok && !(p1.query_language is SPARQL && p2.query_language is SPARQL) && !(
                spec_stream_params_eq(p1, p2) && p1.window_name == p2.window_name) ==> r == Ok::<
                    bool,
                    TulnaError,
                >(false)
            }),
            ({
                let p1 = spec_parse_query(query1@);
                let p2 = spec_parse_query(query2@);
                let valid = crate::isomorphism::model::bgp_valid(p1.bgp)
                    && crate::isomorphism::model::bgp_valid(p2.bgp);
                r matches Ok(b) && b && valid ==> crate::isomorphism::model::graph_set(
                    spec_normalize(p1.bgp),
                ).len() == crate::isomorphism::model::graph_set(spec_normalize(p2.bgp)).len()
                    && crate::isomorphism::model::ground_set(spec_normalize(p1.bgp))
                    == crate::isomorphism::model::ground_set(spec_normalize(p2.bgp))
            }),
            r is Err <==> spec_is_isomorphic_errs(query1@, query2@),
            ({
                let p1 = spec_parse_query(query1@);
                let p2 = spec_parse_query(query2@);
                let na = spec_normalize(p1.bgp);
                let nb = spec_normalize(p2.bgp);
                let gate = (p1.query_language is SPARQL && p2.query_language is SPARQL) || (
                spec_stream_params_eq(p1, p2) && p1.window_name == p2.window_name);
                r is Ok && gate && crate::isomorphism::model::bgp_valid(p1.bgp)
                    && crate::isomorphism::model::bgp_valid(p2.bgp)
                    && crate::isomorphism::model::graph_set(na)
                    == crate::isomorphism::model::graph_set(nb)
                    && crate::isomorphism::model::graph_blanks(na) == Set::<Seq<char>>::empty()
                    ==> r == Ok::<bool, TulnaError>(true)
            }),
    {
        QueryIsomorphism::is_isomorphic(query1, query2)
    }

    /// Detects the language of a query.
    pub fn detect_query_language(query: &str) -> (r: QueryLanguage)
        ensures
            r == spec_detect_query_type(query@),
    {
        QueryIsomorphism::detect_query_type(query)
    }

    /// Extracts the triple pattern of a query.
    pub fn extract_bgp(query: &str) -> (r: Result<Vec<Triple>, TulnaError>)
        ensures
            r matches Ok(bgp) ==> crate::isomorphism::query_core::view_bgp(bgp@)
                == spec_parse_query(query@).bgp,
            r matches Err(e) ==> e is ParseError,
            r is Err <==> spec_parse_errs(query@),
    {
        QueryIsomorphism::generate_bgp_quads_from_query(query)
    }

    /// Parses a query into its structured representation.
    pub fn parse_query(query: &str) -> (r: Result<IsomorphismQuery, TulnaError>)
        ensures
            r matches Ok(p) ==> p@ == spec_parse_query(query@),
            r matches Err(e) ==> e is ParseError,
            r is Err <==> spec_parse_errs(query@),
    {
        QueryIsomorphism::parse_query(query)
    }

    /// Compares two queries and reports the individual findings.
    pub fn compare_queries(query1: &str, query2: &str) -> (r: Result<
        QueryComparisonResult,
        TulnaError,
    >)
        ensures
            r matches Ok(c) ==> ({
                &&& c.same_language == (spec_detect_query_type(query1@) == spec_detect_query_type(
                    query2@))
                &&& c.same_bgp_size == (spec_parse_query(query1@).bgp.len() == spec_parse_query(
                    query2@).bgp.len())
                &&& c.is_isomorphic ==> crate::isomorphism::model::spec_isomorphic(
                    spec_normalize(spec_parse_query(query1@).bgp),
                    spec_normalize(spec_parse_query(query2@).bgp),
                )
                &&& c.bgp_isomorphic ==> crate::isomorphism::model::spec_isomorphic(
                    spec_normalize(spec_parse_query(query1@).bgp),
                    spec_normalize(spec_parse_query(query2@).bgp),
                )
            }),
            r is Err <==> spec_parse_errs(query1@) || spec_parse_errs(query2@) || !(
            crate::isomorphism::model::bgp_valid(spec_parse_query(query1@).bgp)
                && crate::isomorphism::model::bgp_valid(spec_parse_query(query2@).bgp)),
    {
        let lang1 = QueryIsomorphism::detect_query_type(query1);
        let lang2 = QueryIsomorphism::detect_query_type(query2);
        let same_language = lang1 == lang2;
        let q1 = match QueryIsomorphism::parse_query(query1) {
            Ok(p) => p,
            Err(e) => {
                return Err(e);
            },
        };
        let q2 = match QueryIsomorphism::parse_query(query2) {
            Ok(p) => p,
            Err(e) => {
                return Err(e);
            },
        };
        let same_bgp_size = q1.bgp.len() == q2.bgp.len();
        let bgp_isomorphic =
            match crate::isomorphism::graph_isomorphism::GraphIsomorphism::check_bgp_isomorphism(
            &q1.bgp,
            &q2.bgp,
        ) {
            Ok(b) => b,
            Err(e) => {
                return Err(e);
            },
        };
        let is_isomorphic = match QueryIsomorphism::is_isomorphic(query1, query2) {
            Ok(b) => b,
            Err(e) => {
                return Err(e);
            },
        };
        Ok(QueryComparisonResult { is_isomorphic, same_language, same_bgp_size, bgp_isomorphic })
    }

    /// Whether the stream parameters (stream and window names, width, slide,
    /// offset, start, end) of the two queries agree.
    pub fn check_stream_parameters(query1: &str, query2: &str) -> (r: Result<bool, TulnaError>)
        ensures
            r matches Ok(b) ==> b == (spec_stream_params_eq(
                spec_parse_query(query1@),
                spec_parse_query(query2@),
            ) && spec_parse_query(query1@).window_name == spec_parse_query(query2@).window_name),
            r matches Err(e) ==> e is ParseError,
            r is Err <==> spec_parse_errs(query1@) || spec_parse_errs(query2@),
    {
        let q1 = match QueryIsomorphism::parse_query(query1) {
            Ok(p) => p,
            Err(e) => {
                return Err(e);
            },
        };
        let q2 = match QueryIsomorphism::parse_query(query2) {
            Ok(p) => p,
            Err(e) => {
                return Err(e);
            },
        };
        let params = QueryIsomorphism::check_stream_parameters_equal(&q1, &q2)
            && QueryIsomorphism::check_window_names_equal(&q1, &q2);
        Ok(params)
    }

    /// Whether the two queries name the same window.
    pub fn check_window_names(query1: &str, query2: &str) -> (r: Result<bool, TulnaError>)
        ensures
            r matches Ok(b) ==> b == (spec_parse_query(query1@).window_name == spec_parse_query(
                query2@).window_name),
            r matches Err(e) ==> e is ParseError,
            r is Err <==> spec_parse_errs(query1@) || spec_parse_errs(query2@),
    {
        let q1 = match QueryIsomorphism::parse_query(query1) {
            Ok(p) => p,
            Err(e) => {
                return Err(e);
            },
        };
        let q2 = match QueryIsomorphism::parse_query(query2) {
            Ok(p) => p,
            Err(e) => {
                return Err(e);
            },
        };
        Ok(QueryIsomorphism::check_window_names_equal(&q1, &q2))
    }
}

/// The findings of a detailed comparison.
#[derive(Debug, Clone)]
pub struct QueryComparisonResult {
    pub is_isomorphic: bool,
    pub same_language: bool,
    pub same_bgp_size: bool,
    pub bgp_isomorphic: bool,
}

/// The rendering of a boolean.
pub open spec fn spec_bool_str(b: bool) -> Seq<char> {
    if b {
        "true"@
    } else {
        "false"@
    }
}

fn push_bool(dst: &mut Vec<char>, b: bool)
    ensures
        final(dst)@ == old(dst)@ + spec_bool_str(b),
{
    if b {
        push_str_chars(dst, "true");
    } else {
        push_str_chars(dst, "false");
    }
}

impl QueryComparisonResult {
    /// One line stating the four findings.
    pub fn summary(&self) -> (r: String)
        ensures
            r@ == "Isomorphic: "@ + spec_bool_str(self.is_isomorphic) + ", Same Language: "@
                + spec_bool_str(self.same_language) + ", Same BGP Size: "@ + spec_bool_str(
                self.same_bgp_size,
            ) + ", BGP Isomorphic: "@ + spec_bool_str(self.bgp_isomorphic),
    {
        let mut out = chars_of("Isomorphic: ");
        push_bool(&mut out, self.is_isomorphic);
        push_str_chars(&mut out, ", Same Language: ");
        push_bool(&mut out, self.same_language);
        push_str_chars(&mut out, ", Same BGP Size: ");
        push_bool(&mut out, self.same_bgp_size);
        push_str_chars(&mut out, ", BGP Isomorphic: ");
        push_bool(&mut out, self.bgp_isomorphic);
        proof {
            assert(out@ =~= "Isomorphic: "@ + spec_bool_str(self.is_isomorphic)
                + ", Same Language: "@ + spec_bool_str(self.same_language) + ", Same BGP Size: "@
                + spec_bool_str(self.same_bgp_size) + ", BGP Isomorphic: "@ + spec_bool_str(
                self.bgp_isomorphic));
        }
        string_from_chars(&out)
    }
}

} // verus!
