//! Direct graph isomorphism checking, independent of query parsing.

pub use crate::isomorphism::graph_isomorphism::{GraphIsomorphism, NormalizedTriple};
pub use crate::isomorphism::query_core::{Triple, TripleNode};
