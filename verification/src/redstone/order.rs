//! The order of the packages does not matter to an accepted price.
//!
//! Every check on a package but one depends on that package alone; the one
//! that does not, that no signer comes twice, holds of the packages as a
//! whole whatever their order. So acceptance is decided by the packages'
//! contributions taken as a multiset, and so are the median and the oldest
//! timestamp.

use vstd::prelude::*;
use crate::digest::keccak256_spec;
use crate::redstone::laws::lemma_seq_min;
use crate::redstone::median::law_median_ignores_order;
use crate::redstone::package::parse_package_spec;
use crate::redstone::signer::recover_signer_spec;
use crate::redstone::verify::{
    Accepted, RedstoneVerifyInput, accept_package_spec, accept_packages_spec, authorized_view,
    is_future, is_stale, packages_view, seq_min, verify_spec,
};

verus! {

broadcast use vstd::seq_lib::group_to_multiset_ensures;

/// A package's signer, value and timestamp, when it passes every check
/// that looks at it alone: it parses for the expected feed, lies in the
/// freshness window, and recovers to an authorised signer.
pub open spec fn package_entry(input: RedstoneVerifyInput, pkg: (Seq<u8>, Seq<u8>)) -> Option<
    (Seq<u8>, u128, u64),
> {
    match parse_package_spec(pkg.0, input.expected_feed_id@) {
        Err(_) => None,
        Ok(parsed) => if is_stale(input, parsed.timestamp_ms) || is_future(
            input,
            parsed.timestamp_ms,
        ) {
            None
        } else {
            match recover_signer_spec(keccak256_spec(pkg.0), pkg.1) {
                Err(_) => None,
                Ok(signer) => if authorized_view(input).contains(signer) {
                    Some((signer, parsed.value, parsed.timestamp_ms))
                } else {
                    None
                },
            }
        },
    }
}

/// The entry of every package of `input`, in order.
pub open spec fn entries(input: RedstoneVerifyInput) -> Seq<Option<(Seq<u8>, u128, u64)>> {
    packages_view(input.packages@).map_values(
        |p: (Seq<u8>, Seq<u8>)| package_entry(input, p),
    )
}

/// Every entry is present.
pub open spec fn all_present(es: Seq<Option<(Seq<u8>, u128, u64)>>) -> bool {
    forall|i: int| 0 <= i < es.len() ==> (#[trigger] es[i]) is Some
}

/// The signers of the entries.
pub open spec fn entry_signers(es: Seq<Option<(Seq<u8>, u128, u64)>>) -> Seq<Seq<u8>> {
    es.map_values(|e: Option<(Seq<u8>, u128, u64)>| e->Some_0.0)
}

/// What the entries contribute, in order.
pub open spec fn accepted_of(es: Seq<Option<(Seq<u8>, u128, u64)>>) -> Accepted {
    Accepted {
        signers: entry_signers(es),
        values: es.map_values(|e: Option<(Seq<u8>, u128, u64)>| e->Some_0.1),
        timestamps: es.map_values(|e: Option<(Seq<u8>, u128, u64)>| e->Some_0.2),
    }
}

/// The first `n` packages are accepted exactly when each passes on its own
/// and their signers are distinct; then they contribute their entries.
proof fn lemma_accept_by_entries(input: RedstoneVerifyInput, n: nat)
    requires
        n <= input.packages@.len(),
    ensures
        accept_packages_spec(input, n) is Ok <==> all_present(entries(input).take(n as int))
            && entry_signers(entries(input).take(n as int)).no_duplicates(),
        accept_packages_spec(input, n) is Ok ==> accept_packages_spec(input, n)->Ok_0 == accepted_of(
            entries(input).take(n as int),
        ),
    decreases n,
{
    let es = entries(input).take(n as int);
    if n == 0 {
        assert(entry_signers(es) =~= Seq::<Seq<u8>>::empty());
        assert(accepted_of(es).values =~= Seq::<u128>::empty());
        assert(accepted_of(es).timestamps =~= Seq::<u64>::empty());
    } else {
        lemma_accept_by_entries(input, (n - 1) as nat);
        let prev = entries(input).take(n - 1);
        let e = entries(input)[n - 1];
        assert(es =~= prev.push(e));
        let sig = entry_signers(es);
        let psig = entry_signers(prev);
        assert(psig =~= sig.drop_last());
        let pkg = input.packages@[n - 1];
        assert(e == package_entry(input, (pkg.signed_bytes@, pkg.signature@)));
        if all_present(es) {
            assert forall|i: int| 0 <= i < prev.len() implies (#[trigger] prev[i]) is Some by {
                assert(prev[i] == es[i]);
            }
        }
        if sig.no_duplicates() {
            assert forall|i: int, j: int|
                0 <= i < psig.len() && 0 <= j < psig.len() && i != j implies psig[i] != psig[j] by {
                assert(psig[i] == sig[i] && psig[j] == sig[j]);
            }
            if psig.contains(e->Some_0.0) {
                let k = choose|k: int| 0 <= k < psig.len() && psig[k] == e->Some_0.0;
                assert(sig[k] == sig[n - 1]);
            }
        }
        if accept_packages_spec(input, (n - 1) as nat) is Ok {
            let acc = accept_packages_spec(input, (n - 1) as nat)->Ok_0;
            assert(acc == accepted_of(prev));
            if e is Some && !psig.contains(e->Some_0.0) && psig.no_duplicates() {
                assert forall|i: int, j: int|
                    0 <= i < sig.len() && 0 <= j < sig.len() && i != j implies sig[i] != sig[j] by {
                    if i < n - 1 && j < n - 1 {
                        assert(psig[i] == sig[i] && psig[j] == sig[j]);
                    } else if i == n - 1 {
                        assert(psig[j] == sig[j]);
                    } else {
                        assert(psig[i] == sig[i]);
                    }
                }
                let next = accept_package_spec(input, n - 1, acc)->Ok_0;
                assert(next.signers =~= accepted_of(es).signers);
                assert(next.values =~= accepted_of(es).values);
                assert(next.timestamps =~= accepted_of(es).timestamps);
            }
            if all_present(es) {
                assert(es[n - 1] is Some);
            }
        }
    }
}

/// Mapping two sequences with the same elements gives two sequences with
/// the same elements.
proof fn lemma_map_keeps_multiset<A, B>(l1: Seq<A>, l2: Seq<A>, f: spec_fn(A) -> B)
    requires
        l1.to_multiset() == l2.to_multiset(),
    ensures
        l1.map_values(f).to_multiset() == l2.map_values(f).to_multiset(),
    decreases l1.len(),
{
    broadcast use vstd::multiset::group_multiset_axioms;

    if l1.len() == 0 {
        assert(l1.to_multiset().len() == l1.len());
        assert(l2.to_multiset().len() == l2.len());
        assert(l1.map_values(f) =~= l2.map_values(f));
    } else {
        let a = l1.last();
        assert(l1.to_multiset().count(a) > 0);
        assert(l2.contains(a));
        let i = choose|i: int| 0 <= i < l2.len() && l2[i] == a;
        assert(l1.remove(l1.len() - 1) =~= l1.drop_last());
        assert(l1.drop_last().to_multiset() == l1.to_multiset().remove(a));
        assert(l2.remove(i).to_multiset() == l2.to_multiset().remove(a));
        lemma_map_keeps_multiset(l1.drop_last(), l2.remove(i), f);
        let m1 = l1.map_values(f);
        let m2 = l2.map_values(f);
        assert(m1 =~= l1.drop_last().map_values(f).push(f(a)));
        assert(m2.remove(i) =~= l2.remove(i).map_values(f));
        assert(m2[i] == f(a));
        assert(m2.to_multiset().count(f(a)) > 0);
        assert(m2.remove(i).to_multiset() == m2.to_multiset().remove(f(a)));
        assert(m2.to_multiset() =~= m2.to_multiset().remove(f(a)).insert(f(a)));
    }
}

/// Two sequences with the same elements are both free of duplicates or
/// neither is.
proof fn lemma_no_duplicates_by_multiset<A>(s1: Seq<A>, s2: Seq<A>)
    requires
        s1.to_multiset() == s2.to_multiset(),
        s1.no_duplicates(),
    ensures
        s2.no_duplicates(),
{
    s1.lemma_multiset_has_no_duplicates();
    s2.lemma_multiset_has_no_duplicates_conv();
}

/// Of two sequences with the same elements, if every element of one is
/// present, so is every element of the other.
proof fn lemma_all_present_by_multiset(
    es1: Seq<Option<(Seq<u8>, u128, u64)>>,
    es2: Seq<Option<(Seq<u8>, u128, u64)>>,
)
    requires
        es1.to_multiset() == es2.to_multiset(),
        all_present(es1),
    ensures
        all_present(es2),
{
    assert forall|i: int| 0 <= i < es2.len() implies (#[trigger] es2[i]) is Some by {
        let x = es2[i];
        assert(es2.contains(x));
        assert(es2.to_multiset().count(x) > 0);
        assert(es1.contains(x));
    }
}

/// Two sequences with the same elements have the same least element.
proof fn lemma_seq_min_by_multiset(s1: Seq<u64>, s2: Seq<u64>)
    requires
        s1.to_multiset() == s2.to_multiset(),
    ensures
        seq_min(s1) == seq_min(s2),
{
    if s1.len() > 0 {
        assert(s1.to_multiset().len() == s1.len());
        assert(s2.to_multiset().len() == s2.len());
        lemma_seq_min(s1);
        lemma_seq_min(s2);
        let m1 = seq_min(s1);
        let m2 = seq_min(s2);
        assert(s1.contains(m1));
        assert(s2.contains(m2));
        assert(s1.to_multiset().count(m1) > 0);
        assert(s2.contains(m1));
        assert(s2.to_multiset().count(m2) > 0);
        assert(s1.contains(m2));
        let i = choose|i: int| 0 <= i < s2.len() && s2[i] == m1;
        let j = choose|j: int| 0 <= j < s1.len() && s1[j] == m2;
        assert(m2 <= s2[i]);
        assert(m1 <= s1[j]);
    } else {
        assert(s1.to_multiset().len() == s1.len());
        assert(s2.to_multiset().len() == s2.len());
        assert(s1 =~= s2);
    }
}

/// The order of the packages does not matter: the same packages (as
/// signed bytes and signature) in another order, under the same policy,
/// give the same price as an accepted set.
pub proof fn law_package_order_irrelevant(input: RedstoneVerifyInput, reordered: RedstoneVerifyInput)
    requires
        packages_view(reordered.packages@).to_multiset() == packages_view(
            input.packages@,
        ).to_multiset(),
        reordered.authorized_signers == input.authorized_signers,
        reordered.threshold == input.threshold,
        reordered.expected_feed_id == input.expected_feed_id,
        reordered.current_timestamp_ms == input.current_timestamp_ms,
        reordered.max_age_ms == input.max_age_ms,
        verify_spec(input) is Ok,
    ensures
        verify_spec(reordered) == verify_spec(input),
{
    let f = |p: (Seq<u8>, Seq<u8>)| package_entry(input, p);
    let v1 = packages_view(input.packages@);
    let v2 = packages_view(reordered.packages@);
    let e1 = entries(input);
    let e2 = entries(reordered);
    assert(authorized_view(reordered) == authorized_view(input));
    assert(e1 =~= v1.map_values(f));
    assert(e2 =~= v2.map_values(f));
    lemma_map_keeps_multiset(v2, v1, f);
    let n1 = input.packages@.len();
    let n2 = reordered.packages@.len();
    assert(v1.len() == v1.to_multiset().len());
    assert(v2.len() == v2.to_multiset().len());
    assert(e1.take(n1 as int) =~= e1);
    assert(e2.take(n2 as int) =~= e2);
    lemma_accept_by_entries(input, n1);
    lemma_accept_by_entries(reordered, n2);
    lemma_all_present_by_multiset(e1, e2);
    let g = |e: Option<(Seq<u8>, u128, u64)>| e->Some_0.0;
    lemma_map_keeps_multiset(e1, e2, g);
    assert(entry_signers(e1) =~= e1.map_values(g));
    assert(entry_signers(e2) =~= e2.map_values(g));
    lemma_no_duplicates_by_multiset(entry_signers(e1), entry_signers(e2));
    let a1 = accepted_of(e1);
    let a2 = accepted_of(e2);
    lemma_map_keeps_multiset(e1, e2, |e: Option<(Seq<u8>, u128, u64)>| e->Some_0.1);
    lemma_map_keeps_multiset(e1, e2, |e: Option<(Seq<u8>, u128, u64)>| e->Some_0.2);
    law_median_ignores_order(a1.values, a2.values);
    lemma_seq_min_by_multiset(a1.timestamps, a2.timestamps);
}

} // verus!
