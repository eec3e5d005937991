use vstd::prelude::*;

verus! {

/// Errors surfaced by the library.
///
/// "Not isomorphic" is always a value, never an error: these variants cover
/// malformed queries, malformed terms, and a failure of the hash backend.
#[derive(Debug, Clone)]
pub enum TulnaError {
    /// A query string could not be parsed.
    ParseError(String),
    /// A query uses a feature outside the supported fragment.
    UnsupportedFeature(String),
    /// A term is malformed: an IRI or literal payload must not begin with `_:`.
    InvalidInput(String),
    /// The hash backend reported a failure. The kind exists so that such a
    /// failure could never pass as a plain "not isomorphic" answer; the
    /// decision pipeline's contracts prove it is never produced, since the
    /// backend cannot fail over an in-memory source.
    HashError,
    /// Any other failure.
    Unknown(String),
}

} // verus!
