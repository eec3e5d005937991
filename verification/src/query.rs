//! Query equivalence checking for SPARQL, RSP-QL and JanusQL.

pub use crate::isomorphism::api::{QueryComparisonResult, QueryIsomorphismAPI};
pub use crate::isomorphism::query_core::{IsomorphismQuery, QueryLanguage};
