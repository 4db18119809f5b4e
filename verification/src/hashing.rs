//! The Keccak-256 hash.

use vstd::prelude::*;

use crate::bytes::Bytes32;

verus! {

/// The Keccak-256 hash of a byte string.
pub uninterp spec fn keccak(data: Seq<u8>) -> Seq<u8>;

/// `alloy_primitives::keccak256`.
///
/// Trusted: the hash is 32 bytes and a function of the data alone. What it is
/// on given data is left unsaid.
#[verifier::external_body]
pub(crate) fn keccak256(data: &[u8]) -> (h: Bytes32)
    ensures
        h@ == keccak(data@),
{
    Bytes32 { bytes: alloy_primitives::keccak256(data).0 }
}

} // verus!
