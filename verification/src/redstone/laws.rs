//! What every verified price guarantees, proved over the specification that
//! `verify` meets.

use vstd::prelude::*;
use crate::redstone::median::{law_median_between_extremes, median_spec};
use crate::redstone::package::{parse_package_spec, search_points_spec};
use crate::redstone::verify::{
    Accepted, RedstoneVerifyInput, accept_package_spec, accept_packages_spec,
    authorized_view, is_future, is_stale, seq_min, verify_spec,
};

verus! {

/// What the accepted packages satisfy after `n` packages.
pub open spec fn accepted_well_formed(input: RedstoneVerifyInput, acc: Accepted, n: nat) -> bool {
    &&& acc.signers.len() == n
    &&& acc.values.len() == n
    &&& acc.timestamps.len() == n
    &&& acc.signers.no_duplicates()
    &&& forall|i: int| 0 <= i < n ==> authorized_view(input).contains(#[trigger] acc.signers[i])
    &&& forall|i: int|
        0 <= i < n ==> !is_stale(input, #[trigger] acc.timestamps[i]) && !is_future(
            input,
            acc.timestamps[i],
        )
    &&& forall|i: int| 0 <= i < n ==> #[trigger] acc.values[i] > 0
}

proof fn lemma_search_positive(area: Seq<u8>, expected: Seq<u8>, ts: u64, i: nat, count: nat)
    requires
        area.len() == count * 64,
    ensures
        search_points_spec(area, expected, ts, i, count) matches Ok(p) ==> p.value > 0,
    decreases count - i,
{
    if i < count {
        lemma_search_positive(area, expected, ts, i + 1, count);
        assert(64 * i + 64 <= count * 64) by (nonlinear_arith)
            requires
                i < count,
        ;
        let vb = crate::redstone::package::data_point(area, i as int).subrange(32, 64);
        crate::redstone::encoding::lemma_be_value_bound(vb.subrange(16, 32));
        assert(crate::redstone::encoding::pow256(16) == 0x1_0000_0000_0000_0000_0000_0000_0000_0000) by {
            reveal_with_fuel(crate::redstone::encoding::pow256, 17);
        }
    }
}

/// A parsed value is never zero.
proof fn lemma_parsed_positive(bytes: Seq<u8>, expected: Seq<u8>)
    ensures
        parse_package_spec(bytes, expected) matches Ok(p) ==> p.value > 0,
{
    if bytes.len() >= 13 && bytes.len() - 13 == crate::redstone::package::trailer_count(bytes) * 64 {
        lemma_search_positive(
            bytes.take(bytes.len() - 13),
            expected,
            crate::redstone::package::trailer_timestamp(bytes) as u64,
            0,
            crate::redstone::package::trailer_count(bytes),
        );
    }
}

proof fn lemma_accepted_well_formed(input: RedstoneVerifyInput, n: nat)
    requires
        n <= input.packages@.len(),
    ensures
        accept_packages_spec(input, n) matches Ok(acc) ==> accepted_well_formed(input, acc, n),
    decreases n,
{
    if n > 0 {
        lemma_accepted_well_formed(input, (n - 1) as nat);
        if let Ok(acc) = accept_packages_spec(input, (n - 1) as nat) {
            let pkg = input.packages@[n - 1];
            lemma_parsed_positive(pkg.signed_bytes@, input.expected_feed_id@);
            if let Ok(next) = accept_package_spec(input, n - 1, acc) {
                assert(next.signers.drop_last() =~= acc.signers);
                assert forall|i: int, j: int|
                    0 <= i < next.signers.len() && 0 <= j < next.signers.len() && i != j implies next.signers[i]
                    != next.signers[j] by {
                    if i < n - 1 && j < n - 1 {
                        assert(acc.signers[i] != acc.signers[j]);
                    } else if i == n - 1 {
                        assert(acc.signers.contains(acc.signers[j]));
                    } else {
                        assert(acc.signers.contains(acc.signers[i]));
                    }
                }
                assert forall|i: int| 0 <= i < n implies authorized_view(input).contains(
                    #[trigger] next.signers[i],
                ) by {
                    if i < n - 1 {
                        assert(next.signers[i] == acc.signers[i]);
                    }
                }
                assert forall|i: int| 0 <= i < n implies !is_stale(
                    input,
                    #[trigger] next.timestamps[i],
                ) && !is_future(input, next.timestamps[i]) by {
                    if i < n - 1 {
                        assert(next.timestamps[i] == acc.timestamps[i]);
                    }
                }
                assert forall|i: int| 0 <= i < n implies #[trigger] next.values[i] > 0 by {
                    if i < n - 1 {
                        assert(next.values[i] == acc.values[i]);
                    }
                }
            }
        }
    }
}

pub(crate) proof fn lemma_seq_min(s: Seq<u64>)
    requires
        s.len() > 0,
    ensures
        exists|i: int| 0 <= i < s.len() && s[i] == seq_min(s),
        forall|i: int| 0 <= i < s.len() ==> seq_min(s) <= #[trigger] s[i],
    decreases s.len(),
{
    let init = s.drop_last();
    if init.len() > 0 {
        lemma_seq_min(init);
        let k = choose|i: int| 0 <= i < init.len() && init[i] == seq_min(init);
        if s.last() < seq_min(init) {
            assert(s[s.len() - 1] == seq_min(s));
        } else {
            assert(s[k] == seq_min(s));
        }
        assert forall|i: int| 0 <= i < s.len() implies seq_min(s) <= #[trigger] s[i] by {
            if i < s.len() - 1 {
                assert(s[i] == init[i]);
            }
        }
    } else {
        assert(seq_min(init) == u64::MAX);
        assert(s[0] == seq_min(s));
    }
}

/// What a verified price guarantees. Every package was accepted, so there
/// are at least `threshold` of them; their signers are authorised and pairwise
/// distinct; each timestamp lies in the freshness window; each value is
/// positive. The price is the median of the values, lies between the least
/// and the greatest of them (so it is positive), and its timestamp is the
/// oldest package timestamp.
pub proof fn law_verified_price(input: RedstoneVerifyInput)
    requires
        input.packages@.len() > 0 || input.threshold > 0,
        verify_spec(input) is Ok,
    ensures
        accept_packages_spec(input, input.packages@.len()) matches Ok(acc) && {
            let p = verify_spec(input)->Ok_0;
            let n = input.packages@.len();
            &&& accepted_well_formed(input, acc, n)
            &&& n >= input.threshold
            &&& n > 0
            &&& p.value == median_spec(acc.values)
            &&& p.value > 0
            &&& exists|i: int| 0 <= i < n && acc.values[i] <= p.value
            &&& exists|j: int| 0 <= j < n && p.value <= acc.values[j]
            &&& exists|i: int| 0 <= i < n && acc.timestamps[i] == p.timestamp_ms
            &&& forall|i: int| 0 <= i < n ==> p.timestamp_ms <= #[trigger] acc.timestamps[i]
        },
{
    let n = input.packages@.len();
    lemma_accepted_well_formed(input, n);
    let acc = accept_packages_spec(input, n)->Ok_0;
    let p = verify_spec(input)->Ok_0;
    if n == 0 {
        assert(acc.values.len() == 0);
        assert(false);
    }
    law_median_between_extremes(acc.values);
    lemma_seq_min(acc.timestamps);
    let i = choose|i: int| 0 <= i < n && acc.values[i] <= p.value;
    assert(acc.values[i] > 0);
}

proof fn lemma_acceptance_ignores_threshold(a: RedstoneVerifyInput, b: RedstoneVerifyInput, n: nat)
    requires
        a.packages == b.packages,
        a.authorized_signers == b.authorized_signers,
        a.expected_feed_id == b.expected_feed_id,
        a.current_timestamp_ms == b.current_timestamp_ms,
        a.max_age_ms == b.max_age_ms,
    ensures
        accept_packages_spec(a, n) == accept_packages_spec(b, n),
    decreases n,
{
    if n > 0 {
        lemma_acceptance_ignores_threshold(a, b, (n - 1) as nat);
        assert(authorized_view(a) == authorized_view(b));
    }
}

/// Lowering the threshold M keeps an accepted set of packages accepted, with
/// the same price.
pub proof fn law_lower_threshold_keeps_price(input: RedstoneVerifyInput, threshold: u8)
    requires
        threshold <= input.threshold,
        verify_spec(input) is Ok,
    ensures
        verify_spec(RedstoneVerifyInput { threshold, ..input }) == verify_spec(input),
{
    lemma_acceptance_ignores_threshold(
        input,
        RedstoneVerifyInput { threshold, ..input },
        input.packages@.len(),
    );
}

/// With an authorised set that holds every address of `a`'s, and everything
/// else but the threshold the same, what `a` accepts is accepted alike.
proof fn lemma_wider_roster_accepts_alike(a: RedstoneVerifyInput, b: RedstoneVerifyInput, n: nat)
    requires
        a.packages == b.packages,
        a.expected_feed_id == b.expected_feed_id,
        a.current_timestamp_ms == b.current_timestamp_ms,
        a.max_age_ms == b.max_age_ms,
        forall|x: Seq<u8>| authorized_view(a).contains(x) ==> authorized_view(b).contains(x),
    ensures
        accept_packages_spec(a, n) is Ok ==> accept_packages_spec(b, n) == accept_packages_spec(a, n),
    decreases n,
{
    if n > 0 {
        lemma_wider_roster_accepts_alike(a, b, (n - 1) as nat);
    }
}

/// Widening the authorised set, with an equal or lower threshold M, keeps
/// an accepted set of packages accepted, with the same price.
pub proof fn law_wider_roster_keeps_price(
    input: RedstoneVerifyInput,
    authorized_signers: Vec<[u8; 20]>,
    threshold: u8,
)
    requires
        threshold <= input.threshold,
        forall|i: int|
            0 <= i < input.authorized_signers@.len() ==> authorized_signers@.map_values(
                |x: [u8; 20]| x@,
            ).contains(#[trigger] input.authorized_signers@[i]@),
        verify_spec(input) is Ok,
    ensures
        verify_spec(RedstoneVerifyInput { authorized_signers, threshold, ..input }) == verify_spec(
            input,
        ),
{
    let wider = RedstoneVerifyInput { authorized_signers, threshold, ..input };
    assert forall|x: Seq<u8>| authorized_view(input).contains(x) implies authorized_view(
        wider,
    ).contains(x) by {
        let i = choose|i: int| 0 <= i < authorized_view(input).len() && authorized_view(input)[i] == x;
        assert(input.authorized_signers@[i]@ == x);
    }
    lemma_wider_roster_accepts_alike(input, wider, input.packages@.len());
}

proof fn lemma_accepted_packages_fresh(input: RedstoneVerifyInput, n: nat)
    requires
        n <= input.packages@.len(),
        accept_packages_spec(input, n) is Ok,
    ensures
        forall|i: int|
            0 <= i < n ==> (parse_package_spec(
                (#[trigger] input.packages@[i]).signed_bytes@,
                input.expected_feed_id@,
            ) matches Ok(p) && p.timestamp_ms + input.max_age_ms >= input.current_timestamp_ms
                && p.timestamp_ms <= input.current_timestamp_ms + 60_000),
    decreases n,
{
    if n > 0 {
        assert(accept_packages_spec(input, (n - 1) as nat) is Ok);
        lemma_accepted_packages_fresh(input, (n - 1) as nat);
    }
}

/// Every package of an accepted input lies in the freshness window: it
/// parses for the expected feed, its timestamp plus `max_age_ms` reaches
/// `current_timestamp_ms`, and it is at most a minute ahead of
/// `current_timestamp_ms`. So an input holding a package older than
/// `max_age_ms`, or more than a minute in the future, is refused.
pub proof fn law_accepted_packages_are_fresh(input: RedstoneVerifyInput)
    requires
        verify_spec(input) is Ok,
    ensures
        forall|i: int|
            0 <= i < input.packages@.len() ==> (parse_package_spec(
                (#[trigger] input.packages@[i]).signed_bytes@,
                input.expected_feed_id@,
            ) matches Ok(p) && p.timestamp_ms + input.max_age_ms >= input.current_timestamp_ms
                && p.timestamp_ms <= input.current_timestamp_ms + 60_000),
{
    lemma_accepted_packages_fresh(input, input.packages@.len());
}

} // verus!
