//! The process-wide random source: a non-cryptographic 32-bit nonce and a
//! cryptographic 8-byte confounder.

use vstd::prelude::*;

verus! {

/// A fresh 32-bit nonce for a KDC request.
///
/// Relies on `rand::random`, drawing from the thread-local generator.
/// Nothing is promised of the value.
#[verifier::external_body]
pub fn nonce() -> u32 {
    rand::random()
}

/// `count` random bytes from the thread-local cryptographically secure
/// generator, for the RC4-HMAC confounder.
///
/// Relies on `rand::fill`, which fills the whole slice. Only the length is
/// promised: the bytes are random.
#[verifier::external_body]
pub fn random(count: usize) -> (r: Vec<u8>)
    ensures
        r@.len() == count,
{
    let mut buffer = vec![0u8; count];
    rand::fill(buffer.as_mut_slice());
    buffer
}

} // verus!
