//! Choosing the packages to prove: the first `n` gateway packages whose
//! signature recovers to a signer on the roster.

use vstd::prelude::*;
use vstd::utf8::encode_utf8;
use crate::bench::base64::{decode_base64, decode_base64_spec};
use crate::bench::recover::{recover_address, recover_address_spec};
use crate::digest::{keccak256, keccak256_spec};
use crate::redstone::serialize::{
    GatewayPackage, points_view, serialize_signed_bytes, signed_bytes_spec,
};
use crate::redstone::verify::{RedstonePackage, contains_address, packages_view};

verus! {

/// What the pre-check found for one gateway package.
#[derive(Debug)]
pub enum PrecheckEntry {
    /// The package recovers to a roster signer and is selected.
    Accepted { signer: [u8; 20], timestamp_ms: u64, signed_len: usize },
    /// The package recovers to a signer that is not on the roster.
    NotInRoster { signer: [u8; 20] },
    /// Recovery failed, for the reason given.
    Failed { error: String },
}

/// The packages selected for proving, the newest of their timestamps (0 for
/// none), and one pre-check entry per package examined, in order.
#[derive(Debug)]
pub struct Selection {
    pub packages: Vec<RedstonePackage>,
    pub newest_ts: u64,
    pub log: Vec<PrecheckEntry>,
}

/// The signed bytes rebuilt for a gateway package.
pub open spec fn signed_bytes_of(pkg: GatewayPackage) -> Seq<u8> {
    signed_bytes_spec(points_view(pkg.data_points@), pkg.timestamp_milliseconds)
}

/// The decoded signature of a gateway package.
pub open spec fn signature_bytes_of(pkg: GatewayPackage) -> Seq<u8> {
    decode_base64_spec(encode_utf8(pkg.signature@))->Ok_0
}

/// A package the pre-check can examine: its feed ids fit 32 bytes and its
/// signature is base64 for 65 bytes.
pub open spec fn prechecks_safely(pkg: GatewayPackage) -> bool {
    &&& forall|i: int|
        0 <= i < pkg.data_points@.len() ==> encode_utf8(
            (#[trigger] pkg.data_points@[i]).data_feed_id@,
        ).len() <= 32
    &&& decode_base64_spec(encode_utf8(pkg.signature@)) matches Ok(s) && s.len() == 65
}

/// The signer a package's signature recovers to over its rebuilt bytes.
pub open spec fn precheck_outcome(pkg: GatewayPackage) -> Result<Seq<u8>, Seq<char>> {
    recover_address_spec(keccak256_spec(signed_bytes_of(pkg)), signature_bytes_of(pkg))
}

/// A package is selected when it recovers to a signer on the roster.
pub open spec fn is_selected(pkg: GatewayPackage, roster: Seq<Seq<u8>>) -> bool {
    precheck_outcome(pkg) matches Ok(a) && roster.contains(a)
}

/// How many of `pkgs[..i]` are selected.
pub open spec fn selected_count(pkgs: Seq<GatewayPackage>, roster: Seq<Seq<u8>>, i: nat) -> nat
    decreases i,
{
    if i == 0 {
        0
    } else {
        selected_count(pkgs, roster, (i - 1) as nat) + if is_selected(pkgs[i - 1], roster) {
            1nat
        } else {
            0nat
        }
    }
}

/// The (signed bytes, signature) of the selected packages among `pkgs[..i]`.
pub open spec fn selected_spec(pkgs: Seq<GatewayPackage>, roster: Seq<Seq<u8>>, i: nat) -> Seq<
    (Seq<u8>, Seq<u8>),
>
    decreases i,
{
    if i == 0 {
        Seq::empty()
    } else if is_selected(pkgs[i - 1], roster) {
        selected_spec(pkgs, roster, (i - 1) as nat).push(
            (signed_bytes_of(pkgs[i - 1]), signature_bytes_of(pkgs[i - 1])),
        )
    } else {
        selected_spec(pkgs, roster, (i - 1) as nat)
    }
}

/// The newest timestamp of the selected packages among `pkgs[..i]`, or 0.
pub open spec fn newest_spec(pkgs: Seq<GatewayPackage>, roster: Seq<Seq<u8>>, i: nat) -> u64
    decreases i,
{
    if i == 0 {
        0
    } else if is_selected(pkgs[i - 1], roster) && pkgs[i - 1].timestamp_milliseconds > newest_spec(
        pkgs,
        roster,
        (i - 1) as nat,
    ) {
        pkgs[i - 1].timestamp_milliseconds
    } else {
        newest_spec(pkgs, roster, (i - 1) as nat)
    }
}

/// `entry` reports the pre-check of `pkg`.
pub open spec fn entry_describes(entry: PrecheckEntry, pkg: GatewayPackage, roster: Seq<Seq<u8>>) -> bool {
    match precheck_outcome(pkg) {
        Ok(a) => if roster.contains(a) {
            entry matches PrecheckEntry::Accepted { signer, timestamp_ms, signed_len } && signer@ == a
                && timestamp_ms == pkg.timestamp_milliseconds && signed_len == signed_bytes_of(
                pkg,
            ).len()
        } else {
            entry matches PrecheckEntry::NotInRoster { signer } && signer@ == a
        },
        Err(text) => entry matches PrecheckEntry::Failed { error } && error@ == text,
    }
}

/// Every package the pre-check reaches (fewer than `n` selected before it)
/// can be examined.
pub open spec fn reached_packages_precheck_safely(
    pkgs: Seq<GatewayPackage>,
    roster: Seq<Seq<u8>>,
    n: nat,
) -> bool {
    forall|i: int|
        0 <= i < pkgs.len() && selected_count(pkgs, roster, i as nat) < n ==> prechecks_safely(
            #[trigger] pkgs[i],
        )
}

/// Pre-check one package: rebuild its signed bytes, decode its signature,
/// recover the signer and look it up in the roster.
fn precheck_package(pkg: &GatewayPackage, roster: &Vec<[u8; 20]>) -> (r: (
    PrecheckEntry,
    Option<RedstonePackage>,
))
    requires
        prechecks_safely(*pkg),
    ensures
        entry_describes(r.0, *pkg, roster@.map_values(|x: [u8; 20]| x@)),
        match r.1 {
            Some(p) => is_selected(*pkg, roster@.map_values(|x: [u8; 20]| x@)) && p.signed_bytes@
                == signed_bytes_of(*pkg) && p.signature@ == signature_bytes_of(*pkg),
            None => !is_selected(*pkg, roster@.map_values(|x: [u8; 20]| x@)),
        },
{
    let signed_bytes = serialize_signed_bytes(pkg);
    let signature = match decode_base64(pkg.signature.as_str()) {
        Ok(s) => s,
        Err(_) => {
            assert(false);
            Vec::new()
        },
    };
    let digest = keccak256(signed_bytes.as_slice());
    match recover_address(&digest, signature.as_slice()) {
        Ok(addr) => {
            if contains_address(roster, &addr) {
                let entry = PrecheckEntry::Accepted {
                    signer: addr,
                    timestamp_ms: pkg.timestamp_milliseconds,
                    signed_len: signed_bytes.len(),
                };
                (entry, Some(RedstonePackage { signed_bytes, signature }))
            } else {
                (PrecheckEntry::NotInRoster { signer: addr }, None)
            }
        },
        Err(e) => (PrecheckEntry::Failed { error: e }, None),
    }
}

/// Keep the first `n` packages whose rebuilt serialization recovers to a
/// signer on the roster, and log the pre-check of every package examined
/// until then.
pub fn select_packages(feed_packages: &Vec<GatewayPackage>, roster: &Vec<[u8; 20]>, n: usize) -> (r:
    Selection)
    requires
        reached_packages_precheck_safely(
            feed_packages@,
            roster@.map_values(|x: [u8; 20]| x@),
            n as nat,
        ),
    ensures
        ({
            let pkgs = feed_packages@;
            let ros = roster@.map_values(|x: [u8; 20]| x@);
            let m = r.log@.len();
            &&& m <= pkgs.len()
            &&& m > 0 ==> selected_count(pkgs, ros, (m - 1) as nat) < n
            &&& m == pkgs.len() || selected_count(pkgs, ros, m) == n
            &&& forall|k: int| 0 <= k < m ==> entry_describes(#[trigger] r.log@[k], pkgs[k], ros)
            &&& packages_view(r.packages@) == selected_spec(pkgs, ros, m)
            &&& r.newest_ts == newest_spec(pkgs, ros, m)
            &&& forall|k: int|
                0 <= k < m && is_selected(#[trigger] pkgs[k], ros) ==> pkgs[k].timestamp_milliseconds
                    <= r.newest_ts
            &&& (exists|k: int|
                0 <= k < m && is_selected(#[trigger] pkgs[k], ros) && pkgs[k].timestamp_milliseconds
                    == r.newest_ts) || (r.newest_ts == 0 && forall|k: int|
                0 <= k < m ==> !is_selected(#[trigger] pkgs[k], ros))
        }),
{
    let ghost pkgs = feed_packages@;
    let ghost ros = roster@.map_values(|x: [u8; 20]| x@);
    let mut packages: Vec<RedstonePackage> = Vec::new();
    let mut newest_ts: u64 = 0;
    let mut log: Vec<PrecheckEntry> = Vec::new();
    let mut i: usize = 0;
    assert(packages_view(packages@) =~= Seq::<(Seq<u8>, Seq<u8>)>::empty());
    while i < feed_packages.len()
        invariant
            i <= pkgs.len(),
            pkgs == feed_packages@,
            ros == roster@.map_values(|x: [u8; 20]| x@),
            reached_packages_precheck_safely(pkgs, ros, n as nat),
            log@.len() == i,
            i > 0 ==> selected_count(pkgs, ros, (i - 1) as nat) < n,
            packages@.len() == selected_count(pkgs, ros, i as nat),
            forall|k: int| 0 <= k < i ==> entry_describes(#[trigger] log@[k], pkgs[k], ros),
            packages_view(packages@) == selected_spec(pkgs, ros, i as nat),
            newest_ts == newest_spec(pkgs, ros, i as nat),
        ensures
            i <= pkgs.len(),
            log@.len() == i,
            i > 0 ==> selected_count(pkgs, ros, (i - 1) as nat) < n,
            i == pkgs.len() || selected_count(pkgs, ros, i as nat) == n,
            forall|k: int| 0 <= k < i ==> entry_describes(#[trigger] log@[k], pkgs[k], ros),
            packages_view(packages@) == selected_spec(pkgs, ros, i as nat),
            newest_ts == newest_spec(pkgs, ros, i as nat),
        decreases pkgs.len() - i,
    {
        if packages.len() == n {
            break;
        }
        let (entry, selected) = precheck_package(&feed_packages[i], roster);
        let ghost before = packages_view(packages@);
        match selected {
            Some(p) => {
                if feed_packages[i].timestamp_milliseconds > newest_ts {
                    newest_ts = feed_packages[i].timestamp_milliseconds;
                }
                packages.push(p);
                assert(packages_view(packages@) =~= before.push((p.signed_bytes@, p.signature@)));
            },
            None => {},
        }
        let ghost old_log = log@;
        log.push(entry);
        proof {
            assert forall|k: int| 0 <= k < i + 1 implies entry_describes(
                #[trigger] log@[k],
                pkgs[k],
                ros,
            ) by {
                if k < i {
                    assert(log@[k] == old_log[k]);
                }
            }
        }
        i = i + 1;
    }
    proof {
        law_newest_is_latest_selected(pkgs, ros, i as nat);
    }
    Selection { packages, newest_ts, log }
}

/// Whether the pre-check can examine `pkg`.
fn can_precheck(pkg: &GatewayPackage) -> (r: bool)
    ensures
        r == prechecks_safely(*pkg),
{
    let mut k: usize = 0;
    while k < pkg.data_points.len()
        invariant
            k <= pkg.data_points@.len(),
            forall|t: int|
                0 <= t < k ==> encode_utf8((#[trigger] pkg.data_points@[t]).data_feed_id@).len()
                    <= 32,
        decreases pkg.data_points@.len() - k,
    {
        if pkg.data_points[k].data_feed_id.as_str().as_bytes().len() > 32 {
            return false;
        }
        k = k + 1;
    }
    match decode_base64(pkg.signature.as_str()) {
        Ok(sig) => sig.len() == 65,
        Err(_) => false,
    }
}

/// `select_packages` for any input: `None` where a package that the
/// selection reaches cannot be examined (a feed id longer than 32 bytes, or
/// a signature that is not base64 for 65 bytes), else `select_packages`'
/// result.
#[verifier::rlimit(40)]
pub fn select_packages_checked(
    feed_packages: &Vec<GatewayPackage>,
    roster: &Vec<[u8; 20]>,
    n: usize,
) -> (r: Option<Selection>)
    ensures
        r is None <==> !reached_packages_precheck_safely(
            feed_packages@,
            roster@.map_values(|x: [u8; 20]| x@),
            n as nat,
        ),
        r matches Some(sel) ==> ({
            let pkgs = feed_packages@;
            let ros = roster@.map_values(|x: [u8; 20]| x@);
            let m = sel.log@.len();
            &&& m <= pkgs.len()
            &&& m > 0 ==> selected_count(pkgs, ros, (m - 1) as nat) < n
            &&& m == pkgs.len() || selected_count(pkgs, ros, m) == n
            &&& forall|k: int| 0 <= k < m ==> entry_describes(#[trigger] sel.log@[k], pkgs[k], ros)
            &&& packages_view(sel.packages@) == selected_spec(pkgs, ros, m)
            &&& sel.newest_ts == newest_spec(pkgs, ros, m)
        }),
{
    let ghost pkgs = feed_packages@;
    let ghost ros = roster@.map_values(|x: [u8; 20]| x@);
    let mut count: usize = 0;
    let mut i: usize = 0;
    while i < feed_packages.len() && count < n
        invariant
            i <= pkgs.len(),
            pkgs == feed_packages@,
            ros == roster@.map_values(|x: [u8; 20]| x@),
            count == selected_count(pkgs, ros, i as nat),
            count <= n,
            forall|j: int|
                0 <= j < i && selected_count(pkgs, ros, j as nat) < n ==> prechecks_safely(
                    #[trigger] pkgs[j],
                ),
        decreases pkgs.len() - i,
    {
        if !can_precheck(&feed_packages[i]) {
            return None;
        }
        let (_, selected) = precheck_package(&feed_packages[i], roster);
        if selected.is_some() {
            count = count + 1;
        }
        i = i + 1;
    }
    proof {
        assert forall|j: int|
            0 <= j < pkgs.len() && selected_count(pkgs, ros, j as nat) < n implies prechecks_safely(
            #[trigger] pkgs[j],
        ) by {
            if j >= i {
                lemma_selected_count_monotone(pkgs, ros, i as nat, j as nat);
            }
        }
    }
    Some(select_packages(feed_packages, roster, n))
}

proof fn lemma_selected_count_monotone(pkgs: Seq<GatewayPackage>, roster: Seq<Seq<u8>>, a: nat, b: nat)
    requires
        a <= b,
    ensures
        selected_count(pkgs, roster, a) <= selected_count(pkgs, roster, b),
    decreases b,
{
    if a < b {
        lemma_selected_count_monotone(pkgs, roster, a, (b - 1) as nat);
    }
}

/// The newest timestamp among the selected packages of the first `m`: it
/// is at least the timestamp of every selected package and is the
/// timestamp of one of them, or 0 when none is selected.
pub proof fn law_newest_is_latest_selected(pkgs: Seq<GatewayPackage>, roster: Seq<Seq<u8>>, m: nat)
    requires
        m <= pkgs.len(),
    ensures
        forall|k: int|
            0 <= k < m && is_selected(#[trigger] pkgs[k], roster) ==> pkgs[k].timestamp_milliseconds
                <= newest_spec(pkgs, roster, m),
        (exists|k: int|
            0 <= k < m && is_selected(#[trigger] pkgs[k], roster) && pkgs[k].timestamp_milliseconds
                == newest_spec(pkgs, roster, m)) || (newest_spec(pkgs, roster, m) == 0 && forall|
            k: int,
        | 0 <= k < m ==> !is_selected(#[trigger] pkgs[k], roster)),
    decreases m,
{
    if m > 0 {
        law_newest_is_latest_selected(pkgs, roster, (m - 1) as nat);
    }
}

} // verus!
