//! Median aggregation of package values.

use vstd::prelude::*;
use vstd::relations::{sorted_by, total_ordering};

verus! {

broadcast use vstd::seq_lib::group_to_multiset_ensures;

/// The order package values are sorted by.
pub open spec fn value_leq() -> spec_fn(u128, u128) -> bool {
    |a: u128, b: u128| a <= b
}

/// `s` in ascending order.
pub open spec fn sorted_values(s: Seq<u128>) -> Seq<u128> {
    s.sort_by(value_leq())
}

/// The mean of `a` and `b`, rounded down.
pub open spec fn midpoint_spec(a: u128, b: u128) -> u128 {
    ((a + b) / 2) as u128
}

/// The median of a non-empty sequence: the middle element of its sorted
/// order, or the rounded-down mean of the two middle elements when the
/// length is even.
pub open spec fn median_spec(s: Seq<u128>) -> u128 {
    let t = sorted_values(s);
    let mid = t.len() / 2;
    if t.len() % 2 == 1 {
        t[mid as int]
    } else {
        midpoint_spec(t[mid - 1], t[mid as int])
    }
}

proof fn lemma_value_leq_total()
    ensures
        total_ordering(value_leq()),
{
}

/// `sorted_values(s)` is sorted and holds the same values as `s`.
pub proof fn lemma_sorted_values(s: Seq<u128>)
    ensures
        sorted_by(sorted_values(s), value_leq()),
        sorted_values(s).to_multiset() == s.to_multiset(),
        sorted_values(s).len() == s.len(),
{
    lemma_value_leq_total();
    s.lemma_sort_by_ensures(value_leq());
    s.to_multiset_ensures();
    sorted_values(s).to_multiset_ensures();
}

/// Two sorted sequences with the same values are the same sequence.
pub proof fn lemma_sorted_unique(a: Seq<u128>, b: Seq<u128>)
    requires
        sorted_by(a, value_leq()),
        sorted_by(b, value_leq()),
        a.to_multiset() == b.to_multiset(),
    ensures
        a == b,
    decreases a.len(),
{
    broadcast use vstd::multiset::group_multiset_axioms;

    a.to_multiset_ensures();
    b.to_multiset_ensures();
    if a.len() == 0 {
        assert(a =~= b);
    } else {
        let x = a.last();
        let y = b.last();
        assert(a.contains(x));
        assert(b.contains(y));
        assert(b.to_multiset().count(x) > 0);
        assert(a.to_multiset().count(y) > 0);
        let ix = choose|i: int| 0 <= i < b.len() && b[i] == x;
        let iy = choose|i: int| 0 <= i < a.len() && a[i] == y;
        if ix < b.len() - 1 {
            assert(value_leq()(b[ix], b[b.len() - 1]));
        }
        if iy < a.len() - 1 {
            assert(value_leq()(a[iy], a[a.len() - 1]));
        }
        assert(x == y);
        let a0 = a.drop_last();
        let b0 = b.drop_last();
        assert(a0.push(x) =~= a);
        assert(b0.push(x) =~= b);
        assert(a0.to_multiset() =~= b0.to_multiset()) by {
            assert(a0.push(x).to_multiset() == a0.to_multiset().insert(x));
            assert(b0.push(x).to_multiset() == b0.to_multiset().insert(x));
            assert(a.to_multiset() == a0.to_multiset().insert(x));
            assert(b.to_multiset() == b0.to_multiset().insert(x));
            assert forall|v: u128| a0.to_multiset().count(v) == b0.to_multiset().count(v) by {
                assert(a.to_multiset().count(v) == b.to_multiset().count(v));
                assert(a0.to_multiset().insert(x).count(v) == a0.to_multiset().count(v) + if v == x { 1int } else { 0int });
                assert(b0.to_multiset().insert(x).count(v) == b0.to_multiset().count(v) + if v == x { 1int } else { 0int });
            }
        }
        assert(sorted_by(a0, value_leq()));
        assert(sorted_by(b0, value_leq()));
        lemma_sorted_unique(a0, b0);
        assert(a =~= b);
    }
}

/// The values in ascending order.
pub fn sort_values(values: &Vec<u128>) -> (r: Vec<u128>)
    ensures
        r@ == sorted_values(values@),
{
    let mut out: Vec<u128> = Vec::new();
    let mut i: usize = 0;
    while i < values.len()
        invariant
            i <= values@.len(),
            sorted_by(out@, value_leq()),
            out@.to_multiset() == values@.take(i as int).to_multiset(),
        decreases values@.len() - i,
    {
        let x = values[i];
        let mut pos: usize = 0;
        while pos < out.len() && out[pos] <= x
            invariant
                pos <= out@.len(),
                forall|k: int| 0 <= k < pos ==> out@[k] <= x,
            decreases out@.len() - pos,
        {
            pos = pos + 1;
        }
        let ghost old_out = out@;
        out.insert(pos, x);
        proof {
            old_out.insert_ensures(pos as int, x);
            assert forall|p: int, q: int| 0 <= p < q < out@.len() implies #[trigger] value_leq()(
                out@[p],
                out@[q],
            ) by {
                if q < pos {
                } else if q == pos {
                } else if p < pos {
                    assert(old_out[p] <= x);
                    assert(value_leq()(old_out[pos as int], old_out[q - 1]) || pos == q - 1);
                } else if p == pos {
                    assert(value_leq()(old_out[pos as int], old_out[q - 1]) || pos == q - 1);
                } else {
                    assert(value_leq()(old_out[p - 1], old_out[q - 1]));
                }
            }
            assert(values@.take(i + 1) =~= values@.take(i as int).push(x));
        }
        i = i + 1;
    }
    proof {
        assert(values@.take(values@.len() as int) =~= values@);
        lemma_sorted_values(values@);
        lemma_sorted_unique(out@, sorted_values(values@));
    }
    out
}

/// The median of a non-empty list of values.
pub fn median(values: &Vec<u128>) -> (m: u128)
    requires
        values@.len() > 0,
    ensures
        m == median_spec(values@),
{
    let sorted = sort_values(values);
    proof {
        lemma_sorted_values(values@);
    }
    let mid = sorted.len() / 2;
    if sorted.len() % 2 == 1 {
        sorted[mid]
    } else {
        let lo = sorted[mid - 1];
        let hi = sorted[mid];
        assert(value_leq()(sorted@[mid - 1], sorted@[mid as int]));
        lo + (hi - lo) / 2
    }
}

/// The median depends only on which values there are, not on their order.
pub proof fn law_median_ignores_order(s1: Seq<u128>, s2: Seq<u128>)
    requires
        s1.to_multiset() == s2.to_multiset(),
    ensures
        median_spec(s1) == median_spec(s2),
{
    lemma_sorted_values(s1);
    lemma_sorted_values(s2);
    lemma_sorted_unique(sorted_values(s1), sorted_values(s2));
}

/// The median of non-empty values lies between their smallest and their
/// largest value.
pub proof fn law_median_between_extremes(s: Seq<u128>)
    requires
        s.len() > 0,
    ensures
        exists|i: int| 0 <= i < s.len() && s[i] <= median_spec(s),
        exists|j: int| 0 <= j < s.len() && median_spec(s) <= s[j],
{
    broadcast use vstd::multiset::group_multiset_axioms;

    lemma_sorted_values(s);
    let t = sorted_values(s);
    s.to_multiset_ensures();
    t.to_multiset_ensures();
    let mid = t.len() / 2;
    let lo_idx: int = if t.len() % 2 == 1 { mid as int } else { mid - 1 };
    let hi_idx: int = mid as int;
    if lo_idx < hi_idx {
        assert(value_leq()(t[lo_idx], t[hi_idx]));
    }
    assert(t[lo_idx] <= median_spec(s) <= t[hi_idx]);
    assert(t.contains(t[lo_idx]));
    assert(t.contains(t[hi_idx]));
    assert(s.to_multiset().count(t[lo_idx]) > 0);
    assert(s.to_multiset().count(t[hi_idx]) > 0);
    assert(s.contains(t[lo_idx]));
    assert(s.contains(t[hi_idx]));
}

/// The median read off any ascending arrangement `t` of the values: the
/// middle element for an odd count, else the mean of the two middle
/// elements rounded down.
pub proof fn law_median_of_ascending(s: Seq<u128>, t: Seq<u128>)
    requires
        s.len() > 0,
        t.to_multiset() == s.to_multiset(),
        forall|i: int, j: int| 0 <= i <= j < t.len() ==> t[i] <= t[j],
    ensures
        t.len() == s.len(),
        median_spec(s) == if t.len() % 2 == 1 {
            t[(t.len() / 2) as int] as int
        } else {
            (t[t.len() / 2 - 1] + t[(t.len() / 2) as int]) / 2
        },
{
    lemma_sorted_values(s);
    assert(sorted_by(t, value_leq()));
    lemma_sorted_unique(sorted_values(s), t);
}

} // verus!
