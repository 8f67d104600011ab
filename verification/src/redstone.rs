//! RedStone data-package verification.
//!
//! Each package carries the exact byte serialization the RedStone data node
//! signed (`dataPoints || timestamp_ms(6) || value_byte_size(4) || count(3)`),
//! plus a 65-byte recoverable ECDSA signature. Verification recovers each
//! signer address (`keccak256(pubkey)[12..]`), enforces the authorised signer
//! set and M-of-N threshold, rejects stale, mismatched or non-positive
//! packages, and aggregates the surviving values by median.

pub mod encoding;
pub mod package;
pub mod serialize;
pub mod median;
pub mod signer;
pub mod verify;
pub mod laws;
pub mod order;

pub use package::{
    FEED_ID_BS, MAX_FUTURE_DRIFT_MS, POINTS_COUNT_BS, SIGNATURE_BS, TIMESTAMP_BS, VALUE_SIZE_BS,
};
pub use verify::{RedstonePackage, RedstoneVerifyInput, VerifiedPrice, verify};
