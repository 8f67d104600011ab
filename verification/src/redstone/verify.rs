//! Verifying a set of RedStone packages and aggregating their values.

use vstd::prelude::*;
use crate::digest::{keccak256, keccak256_spec};
use crate::redstone::median::{median, median_spec};
use crate::redstone::package::{MAX_FUTURE_DRIFT_MS, parse_package, parse_package_spec};
use crate::redstone::signer::{recover_signer, recover_signer_spec};

verus! {

/// One data package: the bytes the data node signed and its signature.
#[derive(Clone, Debug)]
pub struct RedstonePackage {
    /// Exact signed byte serialization from the data node.
    pub signed_bytes: Vec<u8>,
    /// 65-byte recoverable signature (r || s || v).
    pub signature: Vec<u8>,
}

/// Everything `verify` needs: the packages and the policy to hold them to.
#[derive(Clone, Debug)]
pub struct RedstoneVerifyInput {
    pub packages: Vec<RedstonePackage>,
    /// Authorised signer set (20-byte addresses), admin-configured per feed.
    pub authorized_signers: Vec<[u8; 20]>,
    /// M in M-of-N.
    pub threshold: u8,
    /// Expected feed identifier, e.g. b"XMR".
    pub expected_feed_id: Vec<u8>,
    pub current_timestamp_ms: u64,
    pub max_age_ms: u64,
}

/// The aggregated price.
#[derive(Clone, Copy, Debug, PartialEq, Eq, Structural)]
pub struct VerifiedPrice {
    /// Median of valid package values, 8 implied decimals.
    pub value: u128,
    /// Oldest timestamp among the packages that formed the median.
    pub timestamp_ms: u64,
}

/// What the packages accepted so far contributed: their signers, values and
/// timestamps, in package order.
pub struct Accepted {
    pub signers: Seq<Seq<u8>>,
    pub values: Seq<u128>,
    pub timestamps: Seq<u64>,
}

/// The authorised signer addresses as byte sequences.
pub open spec fn authorized_view(input: RedstoneVerifyInput) -> Seq<Seq<u8>> {
    input.authorized_signers@.map_values(|a: [u8; 20]| a@)
}

/// The package views of a list of packages.
pub open spec fn packages_view(pkgs: Seq<RedstonePackage>) -> Seq<(Seq<u8>, Seq<u8>)> {
    pkgs.map_values(|p: RedstonePackage| (p.signed_bytes@, p.signature@))
}

/// The smallest of `s`, or `u64::MAX` for none.
pub open spec fn seq_min(s: Seq<u64>) -> u64
    decreases s.len(),
{
    if s.len() == 0 {
        u64::MAX
    } else if s.last() < seq_min(s.drop_last()) {
        s.last()
    } else {
        seq_min(s.drop_last())
    }
}

/// A package is stale when it is older than `max_age_ms` at
/// `current_timestamp_ms`.
pub open spec fn is_stale(input: RedstoneVerifyInput, timestamp_ms: u64) -> bool {
    timestamp_ms + input.max_age_ms < input.current_timestamp_ms
}

/// A package is from the future when it is ahead of `current_timestamp_ms`
/// by more than the allowed drift.
pub open spec fn is_future(input: RedstoneVerifyInput, timestamp_ms: u64) -> bool {
    timestamp_ms > input.current_timestamp_ms + MAX_FUTURE_DRIFT_MS
}

/// Check package `i` given what the earlier packages contributed: parse it,
/// hold its timestamp to the freshness window, recover its signer and require
/// an authorised signer not seen before.
pub open spec fn accept_package_spec(input: RedstoneVerifyInput, i: int, acc: Accepted) -> Result<
    Accepted,
    Seq<char>,
> {
    let pkg = input.packages@[i];
    match parse_package_spec(pkg.signed_bytes@, input.expected_feed_id@) {
        Err(e) => Err(e@),
        Ok(parsed) => if is_stale(input, parsed.timestamp_ms) {
            Err("stale data package"@)
        } else if is_future(input, parsed.timestamp_ms) {
            Err("data package timestamp in the future"@)
        } else {
            match recover_signer_spec(keccak256_spec(pkg.signed_bytes@), pkg.signature@) {
                Err(e) => Err(e@),
                Ok(signer) => if !authorized_view(input).contains(signer) {
                    Err("signer not in authorised set"@)
                } else if acc.signers.contains(signer) {
                    Err("duplicate signer"@)
                } else {
                    Ok(
                        Accepted {
                            signers: acc.signers.push(signer),
                            values: acc.values.push(parsed.value),
                            timestamps: acc.timestamps.push(parsed.timestamp_ms),
                        },
                    )
                },
            }
        },
    }
}

/// Check the first `n` packages in order; the first failure decides.
pub open spec fn accept_packages_spec(input: RedstoneVerifyInput, n: nat) -> Result<Accepted, Seq<char>>
    decreases n,
{
    if n == 0 {
        Ok(Accepted { signers: Seq::empty(), values: Seq::empty(), timestamps: Seq::empty() })
    } else {
        match accept_packages_spec(input, (n - 1) as nat) {
            Err(e) => Err(e),
            Ok(acc) => accept_package_spec(input, n - 1, acc),
        }
    }
}

/// The outcome of verifying `input`: every package accepted, at least
/// `threshold` of them, then the median of their values and the oldest of
/// their timestamps.
pub open spec fn verify_spec(input: RedstoneVerifyInput) -> Result<VerifiedPrice, Seq<char>> {
    match accept_packages_spec(input, input.packages@.len()) {
        Err(e) => Err(e),
        Ok(acc) => if acc.values.len() < input.threshold {
            Err("signer threshold not met"@)
        } else {
            Ok(VerifiedPrice { value: median_spec(acc.values), timestamp_ms: seq_min(acc.timestamps) })
        },
    }
}

/// Once a package fails, checking more packages keeps that failure.
proof fn lemma_failure_persists(input: RedstoneVerifyInput, i: nat, n: nat)
    requires
        i <= n,
        accept_packages_spec(input, i) is Err,
    ensures
        accept_packages_spec(input, n) == accept_packages_spec(input, i),
    decreases n,
{
    if n > i {
        lemma_failure_persists(input, i, (n - 1) as nat);
    }
}

/// Whether two addresses are equal.
fn same_address(a: &[u8; 20], b: &[u8; 20]) -> (r: bool)
    ensures
        r == (a@ == b@),
{
    let mut k: usize = 0;
    while k < 20
        invariant
            k <= 20,
            forall|t: int| 0 <= t < k ==> a@[t] == b@[t],
        decreases 20 - k,
    {
        if a[k] != b[k] {
            return false;
        }
        k = k + 1;
    }
    assert(a@ =~= b@);
    true
}

/// Whether `list` holds `a`.
pub(crate) fn contains_address(list: &Vec<[u8; 20]>, a: &[u8; 20]) -> (r: bool)
    ensures
        r == list@.map_values(|x: [u8; 20]| x@).contains(a@),
{
    let ghost view = list@.map_values(|x: [u8; 20]| x@);
    let mut k: usize = 0;
    while k < list.len()
        invariant
            k <= list@.len(),
            view == list@.map_values(|x: [u8; 20]| x@),
            forall|t: int| 0 <= t < k ==> view[t] != a@,
        decreases list@.len() - k,
    {
        if same_address(&list[k], a) {
            assert(view[k as int] == a@);
            return true;
        }
        k = k + 1;
    }
    false
}

/// Verify all packages and aggregate: the adaptor's verification core.
///
/// Each package, in order, must parse for the expected feed, lie within the
/// freshness window, and carry a signature recovering to an authorised
/// signer not seen in an earlier package; the first that fails decides the
/// error. With at least `threshold` packages accepted, the result is the
/// median of their values and the oldest of their timestamps.
pub fn verify(input: &RedstoneVerifyInput) -> (r: Result<VerifiedPrice, String>)
    requires
        input.packages@.len() > 0 || input.threshold > 0,
    ensures
        match r {
            Ok(p) => verify_spec(*input) == Ok::<VerifiedPrice, Seq<char>>(p),
            Err(e) => verify_spec(*input) == Err::<VerifiedPrice, Seq<char>>(e@),
        },
{
    let mut seen_signers: Vec<[u8; 20]> = Vec::new();
    let mut values: Vec<u128> = Vec::new();
    let mut oldest_ts: u64 = u64::MAX;
    let ghost mut timestamps: Seq<u64> = Seq::empty();
    let mut i: usize = 0;
    assert(seen_signers@.map_values(|x: [u8; 20]| x@) =~= Seq::<Seq<u8>>::empty());
    while i < input.packages.len()
        invariant
            i <= input.packages@.len(),
            accept_packages_spec(*input, i as nat) == Ok::<Accepted, Seq<char>>(
                Accepted {
                    signers: seen_signers@.map_values(|x: [u8; 20]| x@),
                    values: values@,
                    timestamps,
                },
            ),
            oldest_ts == seq_min(timestamps),
            values@.len() == i,
        decreases input.packages@.len() - i,
    {
        let pkg = &input.packages[i];
        let ghost acc = Accepted {
            signers: seen_signers@.map_values(|x: [u8; 20]| x@),
            values: values@,
            timestamps,
        };
        let parsed = match parse_package(pkg.signed_bytes.as_slice(), input.expected_feed_id.as_slice()) {
            Ok(p) => p,
            Err(e) => {
                proof {
                    lemma_failure_persists(*input, (i + 1) as nat, input.packages@.len());
                }
                return Err(String::from_str(e));
            },
        };
        if (parsed.timestamp_ms as u128) + (input.max_age_ms as u128) < input.current_timestamp_ms as u128 {
            proof {
                lemma_failure_persists(*input, (i + 1) as nat, input.packages@.len());
            }
            return Err(String::from_str("stale data package"));
        }
        if parsed.timestamp_ms as u128 > (input.current_timestamp_ms as u128) + (MAX_FUTURE_DRIFT_MS as u128) {
            proof {
                lemma_failure_persists(*input, (i + 1) as nat, input.packages@.len());
            }
            return Err(String::from_str("data package timestamp in the future"));
        }
        let digest = keccak256(pkg.signed_bytes.as_slice());
        let signer = match recover_signer(&digest, pkg.signature.as_slice()) {
            Ok(a) => a,
            Err(e) => {
                proof {
                    lemma_failure_persists(*input, (i + 1) as nat, input.packages@.len());
                }
                return Err(String::from_str(e));
            },
        };
        if !contains_address(&input.authorized_signers, &signer) {
            proof {
                lemma_failure_persists(*input, (i + 1) as nat, input.packages@.len());
            }
            return Err(String::from_str("signer not in authorised set"));
        }
        if contains_address(&seen_signers, &signer) {
            proof {
                lemma_failure_persists(*input, (i + 1) as nat, input.packages@.len());
            }
            return Err(String::from_str("duplicate signer"));
        }
        seen_signers.push(signer);
        values.push(parsed.value);
        proof {
            timestamps = timestamps.push(parsed.timestamp_ms);
            assert(seen_signers@.map_values(|x: [u8; 20]| x@) =~= acc.signers.push(signer@));
        }
        if parsed.timestamp_ms < oldest_ts {
            oldest_ts = parsed.timestamp_ms;
        }
        proof {
            assert(timestamps.drop_last() =~= acc.timestamps);
        }
        i = i + 1;
    }
    if values.len() < input.threshold as usize {
        return Err(String::from_str("signer threshold not met"));
    }
    let value = median(&values);
    Ok(VerifiedPrice { value, timestamp_ms: oldest_ts })
}

} // verus!
