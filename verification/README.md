# lez_signature_bench

The verification kernels of a signature-scheme benchmark for the Logos
Execution Zone guest model, and a RedStone oracle data-package verifier,
written in Verus with their contracts proved.

- `src/schemes/`: multi-signer verification (`verify_all`) for ECDSA over
  secp256k1 (Keccak-256 prehash) and P-256 (SHA-256 prehash), BIP-340
  Schnorr, Ed25519 and LMS. The curve arithmetic is the RustCrypto,
  dalek and hbs-lms crates', reached through small trusted wrappers; the
  order of checks and the error reported are proved. `lms/layout.rs`
  states which byte strings the LMS parser reads without panicking, and
  `verify_all_checked` tests that before verifying.
- `src/redstone/`: the RedStone package layout (`parse_package`,
  `serialize_signed_bytes` and the round trip between them), signer
  recovery, and `verify`, which enforces the authorised signer set, the
  M-of-N threshold, freshness and distinct signers, and aggregates by
  median. `laws.rs` proves what every verified price guarantees, and
  `order.rs` that the order of the packages does not change it.
- `src/bench/`: host-side preparation of gateway packages: base64
  decoding, the signer roster, and the choice of packages to prove.
- `app/`: the benchmark program (command line, JSON, proving).
