//! Hash functions provided by outside crates.

use vstd::prelude::*;
use sha2::Digest;

verus! {

/// BLAKE2b with a 32-byte digest of `data`.
pub uninterp spec fn blake2_256_spec(data: Seq<u8>) -> Seq<u8>;

/// SHA-256 digest of `data`.
pub uninterp spec fn sha256_spec(data: Seq<u8>) -> Seq<u8>;

/// Keccak-256 digest of `data` (the pre-standard SHA-3 padding Ethereum uses).
pub uninterp spec fn keccak_256_spec(data: Seq<u8>) -> Seq<u8>;

/// Calls `blake2::Blake2b<U32>::digest` (the unkeyed BLAKE2b-256 hash that
/// Substrate calls `blake2_256`). Claims only that the 32-byte result is the
/// named function of the input bytes.
#[verifier::external_body]
pub(crate) fn blake2_256(data: &[u8]) -> (h: [u8; 32])
    ensures
        h@ == blake2_256_spec(data@),
{
    let out = blake2::Blake2b::<blake2::digest::consts::U32>::digest(data);
    let mut h = [0u8; 32];
    h.copy_from_slice(&out);
    h
}

/// Calls `sha2::Sha256::digest`. Claims only that the 32-byte result is the
/// named function of the input bytes.
#[verifier::external_body]
pub(crate) fn sha256(data: &[u8]) -> (h: [u8; 32])
    ensures
        h@ == sha256_spec(data@),
{
    let out = sha2::Sha256::digest(data);
    let mut h = [0u8; 32];
    h.copy_from_slice(&out);
    h
}

/// Calls `sha3::Keccak256::digest` (the Keccak-256 that Ethereum and
/// Substrate call `keccak_256`). Claims only that the 32-byte result is the
/// named function of the input bytes.
#[verifier::external_body]
pub(crate) fn keccak_256(data: &[u8]) -> (h: [u8; 32])
    ensures
        h@ == keccak_256_spec(data@),
{
    let out = sha3::Keccak256::digest(data);
    let mut h = [0u8; 32];
    h.copy_from_slice(&out);
    h
}

} // verus!
