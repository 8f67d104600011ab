//! Host-side preparation of RedStone packages for the benchmark: decoding
//! gateway fields, recovering signers before proving, and choosing the
//! packages to prove.

pub mod base64;
pub mod recover;
pub mod roster;
pub mod select;
