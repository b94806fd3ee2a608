//! Keccak-256, the hash every commitment in this crate is built from.

use crate::primitives::B256;
use vstd::prelude::*;

verus! {

/// The Keccak-256 digest of a byte string.
///
/// The digest is computed by the `alloy` crate; nothing in this crate says
/// what it is on any given input, only that equal inputs have equal digests.
pub uninterp spec fn keccak256_digest(data: Seq<u8>) -> Seq<u8>;

/// Calls `alloy::primitives::keccak256` on `data`.
///
/// Trusted: the result is the Keccak-256 digest of exactly the bytes given,
/// and depends on nothing else.
#[verifier::external_body]
pub(crate) fn keccak256(data: &[u8]) -> (digest: B256)
    ensures
        digest@ == keccak256_digest(data@),
{
    B256 { bytes: alloy::primitives::keccak256(data).0 }
}

/// The digest of the empty byte string.
pub fn hash_empty() -> (digest: B256)
    ensures
        digest@ == keccak256_digest(Seq::<u8>::empty()),
{
    let data: Vec<u8> = Vec::new();
    keccak256(data.as_slice())
}

/// The digest of `left` followed by `right`, with nothing between or around
/// them.
pub fn hash_pair(left: &B256, right: &B256) -> (digest: B256)
    ensures
        digest@ == keccak256_digest(left@ + right@),
{
    let mut data: Vec<u8> = Vec::new();
    let mut i: usize = 0;
    while i < 32
        invariant
            i <= 32,
            data@ == left@.take(i as int),
        decreases 32 - i,
    {
        data.push(left.bytes[i]);
        assert(data@ =~= left@.take(i + 1));
        i += 1;
    }
    assert(data@ =~= left@);
    let mut j: usize = 0;
    while j < 32
        invariant
            j <= 32,
            data@ == left@ + right@.take(j as int),
        decreases 32 - j,
    {
        data.push(right.bytes[j]);
        assert(data@ =~= left@ + right@.take(j + 1));
        j += 1;
    }
    assert(data@ =~= left@ + right@);
    keccak256(data.as_slice())
}

} // verus!
