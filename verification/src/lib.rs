//! Equivalence of RDF-style graph patterns and of the queries built on them.
//!
//! The crate decides whether two labeled directed multigraphs — basic graph
//! patterns whose nodes are IRIs, literals, blank nodes and variables — are
//! isomorphic under a renaming of their unlabeled nodes (blank nodes and
//! variables, treated identically). The decision kernel normalizes both
//! patterns to a string encoding, rejects cheap mismatches (set sizes,
//! ground triples), refines structural hashes until a fixed point, pairs
//! ambiguous identifiers speculatively, and accepts only bijections whose
//! rewrite carries one triple set exactly onto the other.
//!
//! A `true` answer is proved sound: the contracts of
//! [`graph::GraphIsomorphism::are_isomorphic`] guarantee that a bijection
//! over the unlabeled identifiers exists that rewrites one normalized graph
//! onto the other's triple set. Around the kernel, [`query`] offers
//! equivalence of whole queries in SPARQL, RSP-QL and JanusQL: language
//! detection, extraction of the triple pattern, and comparison of stream and
//! window parameters.

pub mod error;
pub mod graph;
pub mod hashing;
pub mod isomorphism;
pub mod parsing;
pub mod query;
pub mod text;

pub use error::TulnaError;
