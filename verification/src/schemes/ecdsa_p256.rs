//! ECDSA over NIST P-256 with a SHA-256 prehash.

use vstd::prelude::*;
use p256::ecdsa::signature::hazmat::PrehashVerifier;
use crate::digest::{sha256, sha256_spec};
use crate::schemes::{
    SignerVerification, VerifyInput, all_pass_before, first_failure, lemma_first_failure_at, lemma_single_checks,
    law_all_signers_must_pass,
    signer_outcome,
};

verus! {

/// Whether `p256::ecdsa::VerifyingKey::from_sec1_bytes` accepts `pubkey`.
pub uninterp spec fn p256_ecdsa_key_ok(pubkey: Seq<u8>) -> bool;

/// Whether `p256::ecdsa::Signature::from_slice` accepts `bytes`.
pub uninterp spec fn p256_ecdsa_signature_ok(bytes: Seq<u8>) -> bool;

/// Whether `verify_prehash` of the P-256 ECDSA key `pubkey` (SEC1) accepts
/// the `r || s` signature `sig` over the prehash `digest`.
pub uninterp spec fn p256_ecdsa_verifies(pubkey: Seq<u8>, digest: Seq<u8>, sig: Seq<u8>) -> bool;

/// `p256::ecdsa::VerifyingKey::from_sec1_bytes(pubkey)`, keeping only
/// whether it succeeded, which the contract names `p256_ecdsa_key_ok`.
#[verifier::external_body]
fn p256_key_from_sec1_bytes(pubkey: &[u8]) -> (r: bool)
    ensures
        r == p256_ecdsa_key_ok(pubkey@),
{
    p256::ecdsa::VerifyingKey::from_sec1_bytes(pubkey).is_ok()
}

/// `p256::ecdsa::Signature::from_slice(bytes)`, keeping only whether it
/// succeeded, which the contract names `p256_ecdsa_signature_ok`; success
/// needs 64 bytes (the source tests the length first).
#[verifier::external_body]
fn p256_signature_from_slice(bytes: &[u8]) -> (r: bool)
    ensures
        r == p256_ecdsa_signature_ok(bytes@),
        r ==> bytes@.len() == 64,
{
    p256::ecdsa::Signature::from_slice(bytes).is_ok()
}

/// `<p256::ecdsa::VerifyingKey as PrehashVerifier<Signature>>::verify_prehash`,
/// the key and signature built from their bytes by `from_sec1_bytes` and
/// `Signature::from_slice`; keeps whether it succeeded, which the contract
/// names `p256_ecdsa_verifies`.
#[verifier::external_body]
fn p256_verify_prehash(pubkey: &[u8], digest: &[u8; 32], sig: &[u8]) -> (r: bool)
    requires
        p256_ecdsa_key_ok(pubkey@),
        p256_ecdsa_signature_ok(sig@),
    ensures
        r == p256_ecdsa_verifies(pubkey@, digest@, sig@),
{
    match (p256::ecdsa::VerifyingKey::from_sec1_bytes(pubkey), p256::ecdsa::Signature::from_slice(sig)) {
        (Ok(vk), Ok(s)) => vk.verify_prehash(digest, &s).is_ok(),
        _ => false,
    }
}

/// How checking one signer against the message digest ends.
pub open spec fn signer_spec(digest: Seq<u8>, s: SignerVerification) -> Result<(), Seq<char>> {
    signer_outcome(
        p256_ecdsa_key_ok(s.pubkey@),
        p256_ecdsa_signature_ok(s.signature@),
        p256_ecdsa_verifies(s.pubkey@, digest, s.signature@),
    )
}

/// The outcome of every signer, in order.
pub open spec fn outcomes_spec(input: VerifyInput) -> Seq<Result<(), Seq<char>>> {
    let digest = sha256_spec(input.message@);
    input.signers@.map_values(|s: SignerVerification| signer_spec(digest, s))
}

/// Check every signer's SEC1 public key and 64-byte signature against the
/// SHA-256 digest of the message, stopping at the first failure.
pub fn verify_all(input: &VerifyInput) -> (r: Result<(), String>)
    ensures
        match r {
            Ok(()) => first_failure(outcomes_spec(*input)) is Ok,
            Err(e) => first_failure(outcomes_spec(*input)) == Err::<(), Seq<char>>(e@),
        },
        r is Ok <==> forall|i: int|
            0 <= i < input.signers@.len() ==> {
                let s = #[trigger] input.signers@[i];
                p256_ecdsa_key_ok(s.pubkey@) && p256_ecdsa_signature_ok(s.signature@)
                && p256_ecdsa_verifies(s.pubkey@, sha256_spec(input.message@), s.signature@)
            },
{
    proof {
        law_success_means_every_signer_passes(*input);
    }
    let digest = sha256(input.message.as_slice());
    let ghost outcomes = outcomes_spec(*input);
    let mut i: usize = 0;
    while i < input.signers.len()
        invariant
            i <= input.signers@.len(),
            outcomes == outcomes_spec(*input),
            digest@ == sha256_spec(input.message@),
            all_pass_before(outcomes, i as int),
        decreases input.signers@.len() - i,
    {
        let s = &input.signers[i];
        assert(outcomes[i as int] == signer_spec(digest@, *s));
        if !p256_key_from_sec1_bytes(s.pubkey.as_slice()) {
            proof {
                lemma_first_failure_at(outcomes, i as int);
            }
            return Err(String::from_str("pubkey"));
        }
        if !p256_signature_from_slice(s.signature.as_slice()) {
            proof {
                lemma_first_failure_at(outcomes, i as int);
            }
            return Err(String::from_str("sig"));
        }
        if !p256_verify_prehash(s.pubkey.as_slice(), &digest, s.signature.as_slice()) {
            proof {
                lemma_first_failure_at(outcomes, i as int);
            }
            return Err(String::from_str("verify"));
        }
        i = i + 1;
    }
    proof {
        lemma_first_failure_at(outcomes, i as int);
    }
    Ok(())
}

/// Checking all signers gives what checking each alone gives, taken in
/// order: the result of the first single-signer check that fails, or
/// success when none does. `singles[i]` holds the message and signer `i`
/// alone.
pub proof fn law_first_failing_signer(input: VerifyInput, singles: Seq<VerifyInput>)
    requires
        singles.len() == input.signers@.len(),
        forall|i: int|
            0 <= i < singles.len() ==> (#[trigger] singles[i]).message@ == input.message@
                && singles[i].signers@ == seq![input.signers@[i]],
    ensures
        first_failure(outcomes_spec(input)) == first_failure(
            singles.map_values(|s: VerifyInput| first_failure(outcomes_spec(s))),
        ),
{
    let single_outcomes = singles.map_values(|s: VerifyInput| outcomes_spec(s));
    assert forall|i: int| 0 <= i < singles.len() implies #[trigger] single_outcomes[i] == seq![
        outcomes_spec(input)[i],
    ] by {
        assert(outcomes_spec(singles[i]) =~= seq![outcomes_spec(input)[i]]);
    }
    lemma_single_checks(outcomes_spec(input), single_outcomes);
    assert(single_outcomes.map_values(|o: Seq<Result<(), Seq<char>>>| first_failure(o)) =~= singles.map_values(
        |s: VerifyInput| first_failure(outcomes_spec(s)),
    ));
}

/// Checking all signers succeeds exactly when every signer passes: its SEC1 public key parses, its signature parses, and the
/// signature verifies under the key over the SHA-256 digest of the message.
pub proof fn law_success_means_every_signer_passes(input: VerifyInput)
    ensures
        first_failure(outcomes_spec(input)) is Ok <==> forall|i: int|
            0 <= i < input.signers@.len() ==> {
                let s = #[trigger] input.signers@[i];
                p256_ecdsa_key_ok(s.pubkey@) && p256_ecdsa_signature_ok(s.signature@)
                && p256_ecdsa_verifies(s.pubkey@, sha256_spec(input.message@), s.signature@)
            },
{
    let outcomes = outcomes_spec(input);
    law_all_signers_must_pass(outcomes);
    assert forall|i: int| 0 <= i < input.signers@.len() implies (#[trigger] outcomes[i] is Ok <==> {
        let s = input.signers@[i];
        p256_ecdsa_key_ok(s.pubkey@) && p256_ecdsa_signature_ok(s.signature@)
        && p256_ecdsa_verifies(s.pubkey@, sha256_spec(input.message@), s.signature@)
    }) by {
        assert(outcomes[i] == signer_spec(sha256_spec(input.message@), input.signers@[i]));
    }
    if first_failure(outcomes) is Ok {
        assert forall|i: int| 0 <= i < input.signers@.len() implies {
            let s = #[trigger] input.signers@[i];
            p256_ecdsa_key_ok(s.pubkey@) && p256_ecdsa_signature_ok(s.signature@) && p256_ecdsa_verifies(s.pubkey@, sha256_spec(input.message@), s.signature@)
        } by {
            assert(outcomes[i] is Ok);
        }
    }
    if forall|i: int| 0 <= i < input.signers@.len() ==> {
        let s = #[trigger] input.signers@[i];
        p256_ecdsa_key_ok(s.pubkey@) && p256_ecdsa_signature_ok(s.signature@) && p256_ecdsa_verifies(s.pubkey@, sha256_spec(input.message@), s.signature@)
    } {
        assert forall|k: int| 0 <= k < outcomes.len() implies (#[trigger] outcomes[k]) is Ok by {
            let s = input.signers@[k];
        }
    }
}

} // verus!
