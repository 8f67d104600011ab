//! LMS (RFC 8554) hash-based signatures: single-tree HSS with SHA-256.

pub mod layout;

use vstd::prelude::*;
use crate::schemes::{
    SignerVerification, VerifyInput, all_pass_before, first_failure, lemma_first_failure_at, lemma_single_checks,
    law_all_signers_must_pass,
};
use crate::schemes::lms::layout::{lms_parses_safely, parses_safely};

verus! {

/// Whether `hbs_lms::verify::<Sha256_256>` accepts the HSS signature `sig`
/// on `message` under the public key `pubkey`.
pub uninterp spec fn lms_verifies(message: Seq<u8>, sig: Seq<u8>, pubkey: Seq<u8>) -> bool;

/// `hbs_lms::verify::<hbs_lms::Sha256_256>(message, sig, pubkey)` (which
/// parses both byte strings itself), keeping only whether it succeeded,
/// which the contract names `lms_verifies`. The crate's parsers slice and
/// unwrap as they read the fields, and panic on the byte strings that
/// `lms_parses_safely` leaves out: those inputs are left out.
#[verifier::external_body]
fn lms_verify(message: &[u8], sig: &[u8], pubkey: &[u8]) -> (r: bool)
    requires
        lms_parses_safely(sig@, pubkey@),
    ensures
        r == lms_verifies(message@, sig@, pubkey@),
{
    hbs_lms::verify::<hbs_lms::Sha256_256>(message, sig, pubkey).is_ok()
}

/// How checking one signer ends: parsing and verification are one step.
pub open spec fn signer_spec(message: Seq<u8>, s: SignerVerification) -> Result<(), Seq<char>> {
    if lms_verifies(message, s.signature@, s.pubkey@) {
        Ok(())
    } else {
        Err("verify"@)
    }
}

/// The outcome of every signer, in order.
pub open spec fn outcomes_spec(input: VerifyInput) -> Seq<Result<(), Seq<char>>> {
    let message = input.message@;
    input.signers@.map_values(|s: SignerVerification| signer_spec(message, s))
}

/// A signer whose bytes the LMS parsers read without panicking.
pub open spec fn signer_parses_safely(s: SignerVerification) -> bool {
    lms_parses_safely(s.signature@, s.pubkey@)
}

/// Every signer that the check reaches (all before it passed) parses safely.
pub open spec fn reached_signers_parse_safely(input: VerifyInput) -> bool {
    forall|i: int|
        0 <= i < input.signers@.len() && all_pass_before(outcomes_spec(input), i)
            ==> signer_parses_safely(#[trigger] input.signers@[i])
}

/// Check every signer's LMS signature on the message, stopping at the first
/// failure.
pub fn verify_all(input: &VerifyInput) -> (r: Result<(), String>)
    requires
        reached_signers_parse_safely(*input),
    ensures
        match r {
            Ok(()) => first_failure(outcomes_spec(*input)) is Ok,
            Err(e) => first_failure(outcomes_spec(*input)) == Err::<(), Seq<char>>(e@),
        },
        r is Ok <==> forall|i: int|
            0 <= i < input.signers@.len() ==> {
                let s = #[trigger] input.signers@[i];
                lms_verifies(input.message@, s.signature@, s.pubkey@)
            },
{
    proof {
        law_success_means_every_signer_passes(*input);
    }
    let ghost outcomes = outcomes_spec(*input);
    let mut i: usize = 0;
    while i < input.signers.len()
        invariant
            i <= input.signers@.len(),
            outcomes == outcomes_spec(*input),
            all_pass_before(outcomes, i as int),
            reached_signers_parse_safely(*input),
        decreases input.signers@.len() - i,
    {
        let s = &input.signers[i];
        assert(outcomes[i as int] == signer_spec(input.message@, *s));
        assert(signer_parses_safely(input.signers@[i as int]));
        if !lms_verify(input.message.as_slice(), s.signature.as_slice(), s.pubkey.as_slice()) {
            proof {
                lemma_first_failure_at(outcomes, i as int);
            }
            return Err(String::from_str("verify"));
        }
        i = i + 1;
    }
    proof {
        lemma_first_failure_at(outcomes, i as int);
    }
    Ok(())
}

/// `verify_all` for any input: `None` where `verify_all` would hand the
/// LMS parsers bytes they panic on, at a signer that the check reaches; else
/// `verify_all`'s result.
pub fn verify_all_checked(input: &VerifyInput) -> (r: Option<Result<(), String>>)
    ensures
        r is None <==> !reached_signers_parse_safely(*input),
        r matches Some(res) ==> match res {
            Ok(()) => first_failure(outcomes_spec(*input)) is Ok,
            Err(e) => first_failure(outcomes_spec(*input)) == Err::<(), Seq<char>>(e@),
        },
{
    let ghost outcomes = outcomes_spec(*input);
    let mut i: usize = 0;
    while i < input.signers.len()
        invariant
            i <= input.signers@.len(),
            outcomes == outcomes_spec(*input),
            all_pass_before(outcomes, i as int),
            forall|k: int| 0 <= k < i ==> signer_parses_safely(#[trigger] input.signers@[k]),
        decreases input.signers@.len() - i,
    {
        let s = &input.signers[i];
        assert(outcomes[i as int] == signer_spec(input.message@, *s));
        if !parses_safely(s.signature.as_slice(), s.pubkey.as_slice()) {
            return None;
        }
        if !lms_verify(input.message.as_slice(), s.signature.as_slice(), s.pubkey.as_slice()) {
            proof {
                lemma_first_failure_at(outcomes, i as int);
                assert forall|j: int|
                    0 <= j < input.signers@.len() && all_pass_before(outcomes, j) implies signer_parses_safely(
                    #[trigger] input.signers@[j],
                ) by {
                    if j > i {
                        assert(outcomes[i as int] is Ok);
                    }
                }
            }
            return Some(Err(String::from_str("verify")));
        }
        i = i + 1;
    }
    proof {
        lemma_first_failure_at(outcomes, i as int);
    }
    Some(Ok(()))
}

/// Checking all signers gives what checking each alone gives, taken in
/// order: the result of the first single-signer check that fails, or
/// success when none does. `singles[i]` holds the message and signer `i`
/// alone.
pub proof fn law_first_failing_signer(input: VerifyInput, singles: Seq<VerifyInput>)
    requires
        singles.len() == input.signers@.len(),
        forall|i: int|
            0 <= i < singles.len() ==> (#[trigger] singles[i]).message@ == input.message@
                && singles[i].signers@ == seq![input.signers@[i]],
    ensures
        first_failure(outcomes_spec(input)) == first_failure(
            singles.map_values(|s: VerifyInput| first_failure(outcomes_spec(s))),
        ),
{
    let single_outcomes = singles.map_values(|s: VerifyInput| outcomes_spec(s));
    assert forall|i: int| 0 <= i < singles.len() implies #[trigger] single_outcomes[i] == seq![
        outcomes_spec(input)[i],
    ] by {
        assert(outcomes_spec(singles[i]) =~= seq![outcomes_spec(input)[i]]);
    }
    lemma_single_checks(outcomes_spec(input), single_outcomes);
    assert(single_outcomes.map_values(|o: Seq<Result<(), Seq<char>>>| first_failure(o)) =~= singles.map_values(
        |s: VerifyInput| first_failure(outcomes_spec(s)),
    ));
}

/// Checking all signers succeeds exactly when every signer passes: the LMS verification of its signature on the message under its
/// public key succeeds.
pub proof fn law_success_means_every_signer_passes(input: VerifyInput)
    ensures
        first_failure(outcomes_spec(input)) is Ok <==> forall|i: int|
            0 <= i < input.signers@.len() ==> {
                let s = #[trigger] input.signers@[i];
                lms_verifies(input.message@, s.signature@, s.pubkey@)
            },
{
    let outcomes = outcomes_spec(input);
    law_all_signers_must_pass(outcomes);
    assert forall|i: int| 0 <= i < input.signers@.len() implies (#[trigger] outcomes[i] is Ok <==> {
        let s = input.signers@[i];
        lms_verifies(input.message@, s.signature@, s.pubkey@)
    }) by {
        assert(outcomes[i] == signer_spec(input.message@, input.signers@[i]));
    }
    if first_failure(outcomes) is Ok {
        assert forall|i: int| 0 <= i < input.signers@.len() implies {
            let s = #[trigger] input.signers@[i];
            lms_verifies(input.message@, s.signature@, s.pubkey@)
        } by {
            assert(outcomes[i] is Ok);
        }
    }
    if forall|i: int| 0 <= i < input.signers@.len() ==> {
        let s = #[trigger] input.signers@[i];
        lms_verifies(input.message@, s.signature@, s.pubkey@)
    } {
        assert forall|k: int| 0 <= k < outcomes.len() implies (#[trigger] outcomes[k]) is Ok by {
            let s = input.signers@[k];
        }
    }
}

} // verus!
