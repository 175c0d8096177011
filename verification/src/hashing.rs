//! The hash function behind key derivation and message identity.

use blake2::digest::consts::U32;
use blake2::{Blake2b, Digest};
use vstd::prelude::*;

verus! {

/// The BLAKE2b digest of `data` with a 32-byte output.
///
/// The digest is not defined here: it is whatever the `blake2` crate computes.
/// Contracts speak of it by this name, so all that is known of it is that equal
/// inputs have equal digests.
pub uninterp spec fn blake2b_256_digest(data: Seq<u8>) -> Seq<u8>;

/// Hashes `data` with `blake2::Blake2b<U32>`, through `Digest::digest`.
///
/// Trusted: the returned array is the digest that [`blake2b_256_digest`] names.
/// The hasher is unkeyed and reads nothing but `data`.
#[verifier::external_body]
pub(crate) fn blake2b_256_hash(data: &[u8]) -> (digest: [u8; 32])
    ensures
        digest@ == blake2b_256_digest(data@),
{
    Blake2b::<U32>::digest(data).into()
}

} // verus!
