//! Multi-signer verification for each benchmarked signature scheme.
//!
//! Every scheme checks the signers in order and stops at the first one that
//! fails, naming the stage that failed: its public key does not parse
//! ("pubkey"), its signature does not parse ("sig"), or the signature does
//! not verify ("verify").

pub mod ecdsa_k256;
pub mod ecdsa_p256;
pub mod ed25519;
pub mod lms;
pub mod schnorr_k256;

use vstd::prelude::*;

verus! {

/// One signer's public key and signature, in the scheme's own encoding.
#[derive(Clone, Debug)]
pub struct SignerVerification {
    pub pubkey: Vec<u8>,
    pub signature: Vec<u8>,
}

/// A message and the signers that must all have signed it.
#[derive(Clone, Debug)]
pub struct VerifyInput {
    pub message: Vec<u8>,
    pub signers: Vec<SignerVerification>,
}

/// How checking one signer ends: the stages in order, the first that fails
/// naming the error.
pub open spec fn signer_outcome(key_ok: bool, sig_ok: bool, verifies: bool) -> Result<(), Seq<char>> {
    if !key_ok {
        Err("pubkey"@)
    } else if !sig_ok {
        Err("sig"@)
    } else if !verifies {
        Err("verify"@)
    } else {
        Ok(())
    }
}

/// The first failing outcome, or success when none fails.
pub open spec fn first_failure(outcomes: Seq<Result<(), Seq<char>>>) -> Result<(), Seq<char>>
    decreases outcomes.len(),
{
    if outcomes.len() == 0 {
        Ok(())
    } else if outcomes[0] is Err {
        outcomes[0]
    } else {
        first_failure(outcomes.drop_first())
    }
}

/// Every outcome before index `i` is a success.
pub open spec fn all_pass_before(outcomes: Seq<Result<(), Seq<char>>>, i: int) -> bool {
    forall|k: int| 0 <= k < i ==> (#[trigger] outcomes[k]) is Ok
}

/// When everything before `i` passed, the result is decided at `i`: by the
/// outcome there, or success when `i` is the end.
pub proof fn lemma_first_failure_at(outcomes: Seq<Result<(), Seq<char>>>, i: int)
    requires
        0 <= i <= outcomes.len(),
        all_pass_before(outcomes, i),
        i == outcomes.len() || outcomes[i] is Err,
    ensures
        first_failure(outcomes) == if i == outcomes.len() {
            Ok(())
        } else {
            outcomes[i]
        },
    decreases outcomes.len(),
{
    if outcomes.len() > 0 && i > 0 {
        let rest = outcomes.drop_first();
        assert(outcomes[0] is Ok);
        assert forall|k: int| 0 <= k < i - 1 implies (#[trigger] rest[k]) is Ok by {
            assert(rest[k] == outcomes[k + 1]);
        }
        lemma_first_failure_at(rest, i - 1);
    }
}

/// All signers must pass: the verification succeeds exactly when every
/// signer's outcome is a success.
pub proof fn law_all_signers_must_pass(outcomes: Seq<Result<(), Seq<char>>>)
    ensures
        first_failure(outcomes) is Ok <==> all_pass_before(outcomes, outcomes.len() as int),
    decreases outcomes.len(),
{
    if outcomes.len() > 0 {
        let rest = outcomes.drop_first();
        law_all_signers_must_pass(rest);
        if all_pass_before(outcomes, outcomes.len() as int) {
            assert forall|k: int| 0 <= k < rest.len() implies (#[trigger] rest[k]) is Ok by {
                assert(rest[k] == outcomes[k + 1]);
            }
        }
        if outcomes[0] is Ok && all_pass_before(rest, rest.len() as int) {
            assert forall|k: int| 0 <= k < outcomes.len() implies (#[trigger] outcomes[k]) is Ok by {
                if k > 0 {
                    assert(rest[k - 1] == outcomes[k]);
                }
            }
        }
    }
}

/// Checking one signer alone ends as that signer's outcome; so checking all
/// of them ends as the first failing single check, or succeeds.
pub proof fn lemma_single_checks(
    outcomes: Seq<Result<(), Seq<char>>>,
    single_outcomes: Seq<Seq<Result<(), Seq<char>>>>,
)
    requires
        single_outcomes.len() == outcomes.len(),
        forall|i: int| 0 <= i < outcomes.len() ==> #[trigger] single_outcomes[i] == seq![outcomes[i]],
    ensures
        first_failure(outcomes) == first_failure(
            single_outcomes.map_values(|o: Seq<Result<(), Seq<char>>>| first_failure(o)),
        ),
{
    let firsts = single_outcomes.map_values(|o: Seq<Result<(), Seq<char>>>| first_failure(o));
    assert forall|i: int| 0 <= i < outcomes.len() implies #[trigger] firsts[i] == outcomes[i] by {
        let one = single_outcomes[i];
        assert(one.drop_first() =~= Seq::<Result<(), Seq<char>>>::empty());
        assert(first_failure(one.drop_first()) == Ok::<(), Seq<char>>(()));
        if outcomes[i] is Ok {
            let u: () = outcomes[i]->Ok_0;
            assert(outcomes[i] == Ok::<(), Seq<char>>(u));
        }
    }
    assert(firsts =~= outcomes);
}

} // verus!
