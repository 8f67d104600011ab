//! Ed25519 over the message itself (the scheme hashes internally).

use vstd::prelude::*;
use ed25519_dalek::Verifier;
use crate::schemes::{
    SignerVerification, VerifyInput, all_pass_before, first_failure, lemma_first_failure_at, lemma_single_checks,
    law_all_signers_must_pass,
    signer_outcome,
};

verus! {

/// Whether `ed25519_dalek::VerifyingKey::from_bytes` accepts the 32 bytes
/// `pubkey` (a valid compressed Edwards point).
pub uninterp spec fn ed25519_key_ok(pubkey: Seq<u8>) -> bool;

/// Whether `Verifier::verify` of the Ed25519 key `pubkey` accepts the
/// signature `sig` on `message`.
pub uninterp spec fn ed25519_verifies(pubkey: Seq<u8>, message: Seq<u8>, sig: Seq<u8>) -> bool;

/// `ed25519_dalek::VerifyingKey::from_bytes(pubkey)`, keeping only whether
/// it succeeded, which the contract names `ed25519_key_ok`.
#[verifier::external_body]
fn ed25519_key_from_bytes(pubkey: &[u8; 32]) -> (r: bool)
    ensures
        r == ed25519_key_ok(pubkey@),
{
    ed25519_dalek::VerifyingKey::from_bytes(pubkey).is_ok()
}

/// `ed25519_dalek::Signature::from_slice(bytes)`, keeping only whether it
/// succeeded. Claims what the source shows: it converts the slice to a
/// 64-byte array, failing only on another length, and builds the signature
/// from the array without further checks.
#[verifier::external_body]
fn ed25519_signature_from_slice(bytes: &[u8]) -> (r: bool)
    ensures
        r == (bytes@.len() == 64),
{
    ed25519_dalek::Signature::from_slice(bytes).is_ok()
}

/// `<ed25519_dalek::VerifyingKey as Verifier<Signature>>::verify`, the key
/// and signature built from their bytes by the two functions above; keeps
/// whether it succeeded, which the contract names `ed25519_verifies`.
#[verifier::external_body]
fn ed25519_verify(pubkey: &[u8; 32], message: &[u8], sig: &[u8]) -> (r: bool)
    requires
        ed25519_key_ok(pubkey@),
        sig@.len() == 64,
    ensures
        r == ed25519_verifies(pubkey@, message@, sig@),
{
    match (ed25519_dalek::VerifyingKey::from_bytes(pubkey), ed25519_dalek::Signature::from_slice(sig)) {
        (Ok(vk), Ok(s)) => vk.verify(message, &s).is_ok(),
        _ => false,
    }
}

/// How checking one signer on the message ends: the public key must be 32
/// bytes ("pubkey-len") before the other stages.
pub open spec fn signer_spec(message: Seq<u8>, s: SignerVerification) -> Result<(), Seq<char>> {
    if s.pubkey@.len() != 32 {
        Err("pubkey-len"@)
    } else {
        signer_outcome(
            ed25519_key_ok(s.pubkey@),
            s.signature@.len() == 64,
            ed25519_verifies(s.pubkey@, message, s.signature@),
        )
    }
}

/// The outcome of every signer, in order.
pub open spec fn outcomes_spec(input: VerifyInput) -> Seq<Result<(), Seq<char>>> {
    let message = input.message@;
    input.signers@.map_values(|s: SignerVerification| signer_spec(message, s))
}

/// The 32 bytes of `bytes` as an array, or `None` when it has another length.
fn to_key_array(bytes: &[u8]) -> (r: Option<[u8; 32]>)
    ensures
        match r {
            Some(a) => bytes@.len() == 32 && a@ == bytes@,
            None => bytes@.len() != 32,
        },
{
    if bytes.len() != 32 {
        return None;
    }
    let mut a = [0u8; 32];
    let mut k: usize = 0;
    while k < 32
        invariant
            k <= 32,
            bytes@.len() == 32,
            forall|t: int| 0 <= t < k ==> a@[t] == bytes@[t],
        decreases 32 - k,
    {
        a.set(k, bytes[k]);
        k = k + 1;
    }
    assert(a@ =~= bytes@);
    Some(a)
}

/// Check every signer's 32-byte public key and signature on the message,
/// stopping at the first failure.
pub fn verify_all(input: &VerifyInput) -> (r: Result<(), String>)
    ensures
        match r {
            Ok(()) => first_failure(outcomes_spec(*input)) is Ok,
            Err(e) => first_failure(outcomes_spec(*input)) == Err::<(), Seq<char>>(e@),
        },
        r is Ok <==> forall|i: int|
            0 <= i < input.signers@.len() ==> {
                let s = #[trigger] input.signers@[i];
                s.pubkey@.len() == 32 && ed25519_key_ok(s.pubkey@) && s.signature@.len() == 64
                && ed25519_verifies(s.pubkey@, input.message@, s.signature@)
            },
{
    proof {
        law_success_means_every_signer_passes(*input);
    }
    let ghost outcomes = outcomes_spec(*input);
    let mut i: usize = 0;
    while i < input.signers.len()
        invariant
            i <= input.signers@.len(),
            outcomes == outcomes_spec(*input),
            all_pass_before(outcomes, i as int),
        decreases input.signers@.len() - i,
    {
        let s = &input.signers[i];
        assert(outcomes[i as int] == signer_spec(input.message@, *s));
        let pk = match to_key_array(s.pubkey.as_slice()) {
            Some(a) => a,
            None => {
                proof {
                    lemma_first_failure_at(outcomes, i as int);
                }
                return Err(String::from_str("pubkey-len"));
            },
        };
        if !ed25519_key_from_bytes(&pk) {
            proof {
                lemma_first_failure_at(outcomes, i as int);
            }
            return Err(String::from_str("pubkey"));
        }
        if !ed25519_signature_from_slice(s.signature.as_slice()) {
            proof {
                lemma_first_failure_at(outcomes, i as int);
            }
            return Err(String::from_str("sig"));
        }
        if !ed25519_verify(&pk, input.message.as_slice(), s.signature.as_slice()) {
            proof {
                lemma_first_failure_at(outcomes, i as int);
            }
            return Err(String::from_str("verify"));
        }
        i = i + 1;
    }
    proof {
        lemma_first_failure_at(outcomes, i as int);
    }
    Ok(())
}

/// Checking all signers gives what checking each alone gives, taken in
/// order: the result of the first single-signer check that fails, or
/// success when none does. `singles[i]` holds the message and signer `i`
/// alone.
pub proof fn law_first_failing_signer(input: VerifyInput, singles: Seq<VerifyInput>)
    requires
        singles.len() == input.signers@.len(),
        forall|i: int|
            0 <= i < singles.len() ==> (#[trigger] singles[i]).message@ == input.message@
                && singles[i].signers@ == seq![input.signers@[i]],
    ensures
        first_failure(outcomes_spec(input)) == first_failure(
            singles.map_values(|s: VerifyInput| first_failure(outcomes_spec(s))),
        ),
{
    let single_outcomes = singles.map_values(|s: VerifyInput| outcomes_spec(s));
    assert forall|i: int| 0 <= i < singles.len() implies #[trigger] single_outcomes[i] == seq![
        outcomes_spec(input)[i],
    ] by {
        assert(outcomes_spec(singles[i]) =~= seq![outcomes_spec(input)[i]]);
    }
    lemma_single_checks(outcomes_spec(input), single_outcomes);
    assert(single_outcomes.map_values(|o: Seq<Result<(), Seq<char>>>| first_failure(o)) =~= singles.map_values(
        |s: VerifyInput| first_failure(outcomes_spec(s)),
    ));
}

/// Checking all signers succeeds exactly when every signer passes: its public key is 32 bytes and parses, its signature is 64
/// bytes, and the signature verifies under the key over the message.
pub proof fn law_success_means_every_signer_passes(input: VerifyInput)
    ensures
        first_failure(outcomes_spec(input)) is Ok <==> forall|i: int|
            0 <= i < input.signers@.len() ==> {
                let s = #[trigger] input.signers@[i];
                s.pubkey@.len() == 32 && ed25519_key_ok(s.pubkey@) && s.signature@.len() == 64
                && ed25519_verifies(s.pubkey@, input.message@, s.signature@)
            },
{
    let outcomes = outcomes_spec(input);
    law_all_signers_must_pass(outcomes);
    assert forall|i: int| 0 <= i < input.signers@.len() implies (#[trigger] outcomes[i] is Ok <==> {
        let s = input.signers@[i];
        s.pubkey@.len() == 32 && ed25519_key_ok(s.pubkey@) && s.signature@.len() == 64
        && ed25519_verifies(s.pubkey@, input.message@, s.signature@)
    }) by {
        assert(outcomes[i] == signer_spec(input.message@, input.signers@[i]));
    }
    if first_failure(outcomes) is Ok {
        assert forall|i: int| 0 <= i < input.signers@.len() implies {
            let s = #[trigger] input.signers@[i];
            s.pubkey@.len() == 32 && ed25519_key_ok(s.pubkey@) && s.signature@.len() == 64 && ed25519_verifies(s.pubkey@, input.message@, s.signature@)
        } by {
            assert(outcomes[i] is Ok);
        }
    }
    if forall|i: int| 0 <= i < input.signers@.len() ==> {
        let s = #[trigger] input.signers@[i];
        s.pubkey@.len() == 32 && ed25519_key_ok(s.pubkey@) && s.signature@.len() == 64 && ed25519_verifies(s.pubkey@, input.message@, s.signature@)
    } {
        assert forall|k: int| 0 <= k < outcomes.len() implies (#[trigger] outcomes[k]) is Ok by {
            let s = input.signers@[k];
        }
    }
}

} // verus!
