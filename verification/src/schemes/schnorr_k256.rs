//! BIP-340 Schnorr signatures over secp256k1 with a SHA-256 prehash.

use vstd::prelude::*;
use k256::schnorr::signature::hazmat::PrehashVerifier;
use crate::digest::{sha256, sha256_spec};
use crate::schemes::{
    SignerVerification, VerifyInput, all_pass_before, first_failure, lemma_first_failure_at, lemma_single_checks,
    law_all_signers_must_pass,
    signer_outcome,
};

verus! {

/// Whether `k256::schnorr::VerifyingKey::from_bytes` accepts the 32-byte
/// x-only public key `pubkey`.
pub uninterp spec fn schnorr_key_ok(pubkey: Seq<u8>) -> bool;

/// Whether `<k256::schnorr::Signature as TryFrom<&[u8]>>::try_from` accepts
/// `bytes`.
pub uninterp spec fn schnorr_signature_ok(bytes: Seq<u8>) -> bool;

/// Whether `verify_prehash` of the Schnorr key `pubkey` accepts the signature
/// `sig` over the prehash `digest`.
pub uninterp spec fn schnorr_verifies(pubkey: Seq<u8>, digest: Seq<u8>, sig: Seq<u8>) -> bool;

/// `k256::schnorr::VerifyingKey::from_bytes(pubkey)`, keeping only whether
/// it succeeded, which the contract names `schnorr_key_ok`. The function
/// reads the bytes with `FieldBytes::from_slice`, which panics on any length
/// but 32: that input is left out.
#[verifier::external_body]
fn schnorr_key_from_bytes(pubkey: &[u8]) -> (r: bool)
    requires
        pubkey@.len() == 32,
    ensures
        r == schnorr_key_ok(pubkey@),
{
    k256::schnorr::VerifyingKey::from_bytes(pubkey).is_ok()
}

/// `<k256::schnorr::Signature as TryFrom<&[u8]>>::try_from(bytes)`, keeping
/// only whether it succeeded, which the contract names
/// `schnorr_signature_ok`; success needs 64 bytes (the second half must be a
/// 32-byte scalar). The function first splits the bytes at 32, which panics
/// on fewer than 32 bytes: that input is left out.
#[verifier::external_body]
fn schnorr_signature_try_from(bytes: &[u8]) -> (r: bool)
    requires
        bytes@.len() >= 32,
    ensures
        r == schnorr_signature_ok(bytes@),
        r ==> bytes@.len() == 64,
{
    k256::schnorr::Signature::try_from(bytes).is_ok()
}

/// `<k256::schnorr::VerifyingKey as PrehashVerifier<Signature>>::verify_prehash`,
/// the key and signature built from their bytes by the two functions above;
/// keeps whether it succeeded, which the contract names `schnorr_verifies`.
#[verifier::external_body]
fn schnorr_verify_prehash(pubkey: &[u8], digest: &[u8; 32], sig: &[u8]) -> (r: bool)
    requires
        pubkey@.len() == 32,
        sig@.len() >= 32,
        schnorr_key_ok(pubkey@),
        schnorr_signature_ok(sig@),
    ensures
        r == schnorr_verifies(pubkey@, digest@, sig@),
{
    match (k256::schnorr::VerifyingKey::from_bytes(pubkey), k256::schnorr::Signature::try_from(sig)) {
        (Ok(vk), Ok(s)) => vk.verify_prehash(digest, &s).is_ok(),
        _ => false,
    }
}

/// How checking one signer against the message digest ends.
pub open spec fn signer_spec(digest: Seq<u8>, s: SignerVerification) -> Result<(), Seq<char>> {
    signer_outcome(
        schnorr_key_ok(s.pubkey@),
        schnorr_signature_ok(s.signature@),
        schnorr_verifies(s.pubkey@, digest, s.signature@),
    )
}

/// The outcome of every signer, in order.
pub open spec fn outcomes_spec(input: VerifyInput) -> Seq<Result<(), Seq<char>>> {
    let digest = sha256_spec(input.message@);
    input.signers@.map_values(|s: SignerVerification| signer_spec(digest, s))
}

/// A signer whose bytes the parsers read without panicking: a 32-byte key
/// and, where the key parses, a signature of at least 32 bytes.
pub open spec fn signer_parses_safely(s: SignerVerification) -> bool {
    &&& s.pubkey@.len() == 32
    &&& schnorr_key_ok(s.pubkey@) ==> s.signature@.len() >= 32
}

/// Every signer that the check reaches (all before it passed) parses safely.
pub open spec fn reached_signers_parse_safely(input: VerifyInput) -> bool {
    forall|i: int|
        0 <= i < input.signers@.len() && all_pass_before(outcomes_spec(input), i)
            ==> signer_parses_safely(#[trigger] input.signers@[i])
}

/// Check every signer's x-only public key and signature against the SHA-256
/// digest of the message, stopping at the first failure.
pub fn verify_all(input: &VerifyInput) -> (r: Result<(), String>)
    requires
        reached_signers_parse_safely(*input),
    ensures
        match r {
            Ok(()) => first_failure(outcomes_spec(*input)) is Ok,
            Err(e) => first_failure(outcomes_spec(*input)) == Err::<(), Seq<char>>(e@),
        },
        r is Ok <==> forall|i: int|
            0 <= i < input.signers@.len() ==> {
                let s = #[trigger] input.signers@[i];
                schnorr_key_ok(s.pubkey@) && schnorr_signature_ok(s.signature@)
                && schnorr_verifies(s.pubkey@, sha256_spec(input.message@), s.signature@)
            },
{
    proof {
        law_success_means_every_signer_passes(*input);
    }
    let digest = sha256(input.message.as_slice());
    let ghost outcomes = outcomes_spec(*input);
    let mut i: usize = 0;
    while i < input.signers.len()
        invariant
            i <= input.signers@.len(),
            outcomes == outcomes_spec(*input),
            digest@ == sha256_spec(input.message@),
            all_pass_before(outcomes, i as int),
            reached_signers_parse_safely(*input),
        decreases input.signers@.len() - i,
    {
        let s = &input.signers[i];
        assert(outcomes[i as int] == signer_spec(digest@, *s));
        assert(signer_parses_safely(input.signers@[i as int]));
        if !schnorr_key_from_bytes(s.pubkey.as_slice()) {
            proof {
                lemma_first_failure_at(outcomes, i as int);
            }
            return Err(String::from_str("pubkey"));
        }
        if !schnorr_signature_try_from(s.signature.as_slice()) {
            proof {
                lemma_first_failure_at(outcomes, i as int);
            }
            return Err(String::from_str("sig"));
        }
        if !schnorr_verify_prehash(s.pubkey.as_slice(), &digest, s.signature.as_slice()) {
            proof {
                lemma_first_failure_at(outcomes, i as int);
            }
            return Err(String::from_str("verify"));
        }
        i = i + 1;
    }
    proof {
        lemma_first_failure_at(outcomes, i as int);
    }
    Ok(())
}

/// `verify_all` for any input: `None` where `verify_all` would hand a
/// parser bytes it panics on (a key that is not 32 bytes, or a signature
/// shorter than 32 bytes under a key that parses, at a signer that the
/// check reaches), else `verify_all`'s result.
pub fn verify_all_checked(input: &VerifyInput) -> (r: Option<Result<(), String>>)
    ensures
        r is None <==> !reached_signers_parse_safely(*input),
        r matches Some(res) ==> match res {
            Ok(()) => first_failure(outcomes_spec(*input)) is Ok,
            Err(e) => first_failure(outcomes_spec(*input)) == Err::<(), Seq<char>>(e@),
        },
{
    let digest = sha256(input.message.as_slice());
    let ghost outcomes = outcomes_spec(*input);
    let mut i: usize = 0;
    while i < input.signers.len()
        invariant
            i <= input.signers@.len(),
            outcomes == outcomes_spec(*input),
            outcomes.len() == input.signers@.len(),
            digest@ == sha256_spec(input.message@),
            all_pass_before(outcomes, i as int),
            forall|k: int| 0 <= k < i ==> signer_parses_safely(#[trigger] input.signers@[k]),
        ensures
            i <= input.signers@.len(),
            all_pass_before(outcomes, i as int),
            forall|k: int| 0 <= k < i ==> signer_parses_safely(#[trigger] input.signers@[k]),
            i < input.signers@.len() ==> outcomes[i as int] is Err && signer_parses_safely(
                input.signers@[i as int],
            ),
        decreases input.signers@.len() - i,
    {
        let s = &input.signers[i];
        assert(outcomes[i as int] == signer_spec(digest@, *s));
        if s.pubkey.len() != 32 {
            proof {
                assert(!signer_parses_safely(input.signers@[i as int]));
            }
            return None;
        }
        if !schnorr_key_from_bytes(s.pubkey.as_slice()) {
            break;
        }
        if s.signature.len() < 32 {
            proof {
                assert(!signer_parses_safely(input.signers@[i as int]));
            }
            return None;
        }
        if !schnorr_signature_try_from(s.signature.as_slice()) {
            break;
        }
        if !schnorr_verify_prehash(s.pubkey.as_slice(), &digest, s.signature.as_slice()) {
            break;
        }
        i = i + 1;
    }
    proof {
        assert forall|j: int|
            0 <= j < input.signers@.len() && all_pass_before(outcomes_spec(*input), j) implies signer_parses_safely(
            #[trigger] input.signers@[j],
        ) by {
            if j > i {
                assert(outcomes[i as int] is Ok);
            }
            if j == i {
                assert(signer_parses_safely(input.signers@[j]));
            }
        }
    }
    Some(verify_all(input))
}

/// Checking all signers gives what checking each alone gives, taken in
/// order: the result of the first single-signer check that fails, or
/// success when none does. `singles[i]` holds the message and signer `i`
/// alone.
pub proof fn law_first_failing_signer(input: VerifyInput, singles: Seq<VerifyInput>)
    requires
        singles.len() == input.signers@.len(),
        forall|i: int|
            0 <= i < singles.len() ==> (#[trigger] singles[i]).message@ == input.message@
                && singles[i].signers@ == seq![input.signers@[i]],
    ensures
        first_failure(outcomes_spec(input)) == first_failure(
            singles.map_values(|s: VerifyInput| first_failure(outcomes_spec(s))),
        ),
{
    let single_outcomes = singles.map_values(|s: VerifyInput| outcomes_spec(s));
    assert forall|i: int| 0 <= i < singles.len() implies #[trigger] single_outcomes[i] == seq![
        outcomes_spec(input)[i],
    ] by {
        assert(outcomes_spec(singles[i]) =~= seq![outcomes_spec(input)[i]]);
    }
    lemma_single_checks(outcomes_spec(input), single_outcomes);
    assert(single_outcomes.map_values(|o: Seq<Result<(), Seq<char>>>| first_failure(o)) =~= singles.map_values(
        |s: VerifyInput| first_failure(outcomes_spec(s)),
    ));
}

/// Checking all signers succeeds exactly when every signer passes: its x-only public key parses, its signature parses, and the
/// signature verifies under the key over the SHA-256 digest of the message.
pub proof fn law_success_means_every_signer_passes(input: VerifyInput)
    ensures
        first_failure(outcomes_spec(input)) is Ok <==> forall|i: int|
            0 <= i < input.signers@.len() ==> {
                let s = #[trigger] input.signers@[i];
                schnorr_key_ok(s.pubkey@) && schnorr_signature_ok(s.signature@)
                && schnorr_verifies(s.pubkey@, sha256_spec(input.message@), s.signature@)
            },
{
    let outcomes = outcomes_spec(input);
    law_all_signers_must_pass(outcomes);
    assert forall|i: int| 0 <= i < input.signers@.len() implies (#[trigger] outcomes[i] is Ok <==> {
        let s = input.signers@[i];
        schnorr_key_ok(s.pubkey@) && schnorr_signature_ok(s.signature@)
        && schnorr_verifies(s.pubkey@, sha256_spec(input.message@), s.signature@)
    }) by {
        assert(outcomes[i] == signer_spec(sha256_spec(input.message@), input.signers@[i]));
    }
    if first_failure(outcomes) is Ok {
        assert forall|i: int| 0 <= i < input.signers@.len() implies {
            let s = #[trigger] input.signers@[i];
            schnorr_key_ok(s.pubkey@) && schnorr_signature_ok(s.signature@) && schnorr_verifies(s.pubkey@, sha256_spec(input.message@), s.signature@)
        } by {
            assert(outcomes[i] is Ok);
        }
    }
    if forall|i: int| 0 <= i < input.signers@.len() ==> {
        let s = #[trigger] input.signers@[i];
        schnorr_key_ok(s.pubkey@) && schnorr_signature_ok(s.signature@) && schnorr_verifies(s.pubkey@, sha256_spec(input.message@), s.signature@)
    } {
        assert forall|k: int| 0 <= k < outcomes.len() implies (#[trigger] outcomes[k]) is Ok by {
            let s = input.signers@[k];
        }
    }
}

} // verus!
