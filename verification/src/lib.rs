//! Signature-verification kernels of the LEZ signature benchmark, and the
//! RedStone oracle data-package verifier, with their contracts proved.
//!
//! - `schemes`: multi-signer verification for ECDSA (secp256k1, P-256),
//!   BIP-340 Schnorr, Ed25519 and LMS.
//! - `redstone`: parsing, signer recovery, M-of-N checks and median
//!   aggregation of RedStone data packages.
//! - `bench`: host-side preparation of gateway packages for proving.
//! - `digest`: the Keccak-256 and SHA-256 digests.

pub mod bench;
pub mod digest;
pub mod redstone;
pub mod schemes;

pub use schemes::{SignerVerification, VerifyInput};
