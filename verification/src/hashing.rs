use vstd::prelude::*;

use crate::error::TulnaError;
use crate::text::string_from_chars;

verus! {

/// What `murmur3::murmur3_x64_128` with seed 0 returns on the UTF-8 bytes of
/// a string holding the given characters. The digest is a fixed function of
/// those characters alone.
pub uninterp spec fn murmur3_128_of(s: Seq<char>) -> u128;

/// Relies on `murmur3::murmur3_x64_128`: a deterministic digest of the bytes
/// read from the source with seed 0, whose only error is the reader's own.
/// Here the reader is an in-memory cursor over the string's UTF-8 bytes, and
/// reading from a slice cursor cannot fail, so the digest is always produced.
#[verifier::external_body]
fn murmur3_128(s: &String) -> (r: Option<u128>)
    ensures
        r is Some,
        r matches Some(h) ==> h == murmur3_128_of(s@),
{
    let mut cursor = std::io::Cursor::new(s.as_bytes());
    murmur3::murmur3_x64_128(&mut cursor, 0).ok()
}

/// The 64-bit hash the engine works with: the low 64 bits of the digest.
pub open spec fn spec_hash64(s: Seq<char>) -> u64 {
    (murmur3_128_of(s) & 0xffff_ffff_ffff_ffffu128) as u64
}

/// Hashes a character string. The result type keeps a distinct error kind
/// for a failing hash backend, but the backend cannot fail over an in-memory
/// source, so the hash is always produced.
pub fn hash_chars(v: &Vec<char>) -> (r: Result<u64, TulnaError>)
    ensures
        r is Ok,
        r matches Ok(h) ==> h == spec_hash64(v@),
{
    let s = string_from_chars(v);
    match murmur3_128(&s) {
        Some(h) => Ok((h & 0xffff_ffff_ffff_ffffu128) as u64),
        None => Err(TulnaError::HashError),
    }
}

} // verus!
