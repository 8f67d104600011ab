//! The two message digests the verifiers use: Keccak-256 and SHA-256.

use sha2::Digest;
use tiny_keccak::Hasher;
use vstd::prelude::*;

verus! {

/// The Keccak-256 digest of `data` (the Ethereum variant, with Keccak
/// padding rather than SHA-3 padding), as `tiny_keccak` computes it.
pub uninterp spec fn keccak256_spec(data: Seq<u8>) -> Seq<u8>;

/// The SHA-256 digest of `data`, as the `sha2` crate computes it.
pub uninterp spec fn sha256_spec(data: Seq<u8>) -> Seq<u8>;

/// Keccak-256 of `bytes`, through `tiny_keccak::Keccak::v256` with one
/// `update` and one `finalize`. The contract claims only that the digest is
/// the function `keccak256_spec` of the input bytes.
#[verifier::external_body]
pub fn keccak256(bytes: &[u8]) -> (out: [u8; 32])
    ensures
        out@ == keccak256_spec(bytes@),
{
    let mut h = tiny_keccak::Keccak::v256();
    let mut out = [0u8; 32];
    h.update(bytes);
    h.finalize(&mut out);
    out
}

/// SHA-256 of `bytes`, through `<sha2::Sha256 as sha2::Digest>::digest`.
/// The contract claims only that the digest is the function `sha256_spec` of
/// the input bytes.
#[verifier::external_body]
pub fn sha256(bytes: &[u8]) -> (out: [u8; 32])
    ensures
        out@ == sha256_spec(bytes@),
{
    sha2::Sha256::digest(bytes).into()
}

} // verus!
