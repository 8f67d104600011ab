//! Rebuilding the exact bytes a RedStone data node signs, from the fields a
//! gateway reports for a package.

use vstd::prelude::*;
use vstd::utf8::encode_utf8;
use crate::redstone::encoding::{be_value, pow256};
use crate::redstone::package::{
    FEED_ID_BS, TIMESTAMP_BS, VALUE_BS, ParsedPackage, data_point, nul_index,
    parse_package_spec, search_points_spec, trailer_count, trailer_timestamp, trailer_value_size,
    trim_feed_id,
};

verus! {

/// One data point of a gateway package: its feed identifier and its value,
/// scaled to 8 implied decimals.
#[derive(Clone, Debug)]
pub struct GatewayDataPoint {
    pub data_feed_id: String,
    pub value: u128,
}

/// A package as a RedStone gateway reports it.
#[derive(Clone, Debug)]
pub struct GatewayPackage {
    pub timestamp_milliseconds: u64,
    /// The signature as base64 text.
    pub signature: String,
    /// The signer's address as hex text, optionally prefixed with `0x`.
    pub signer_address: String,
    pub data_points: Vec<GatewayDataPoint>,
}

/// The `n` low bytes of `x`, most significant first.
pub open spec fn be_bytes(x: nat, n: nat) -> Seq<u8>
    decreases n,
{
    if n == 0 {
        Seq::empty()
    } else {
        be_bytes(x / 256, (n - 1) as nat).push((x % 256) as u8)
    }
}

/// `n` zero bytes.
pub open spec fn zeros(n: nat) -> Seq<u8> {
    Seq::new(n, |i: int| 0u8)
}

/// The 64 bytes of one data point: the feed id padded with zeros to 32
/// bytes, then the value as a 32-byte big-endian number.
pub open spec fn point_bytes(feed_id: Seq<u8>, value: u128) -> Seq<u8> {
    feed_id + zeros((32 - feed_id.len()) as nat) + zeros(16) + be_bytes(value as nat, 16)
}

/// The data points, one after the other.
pub open spec fn points_area_spec(points: Seq<(Seq<u8>, u128)>) -> Seq<u8>
    decreases points.len(),
{
    if points.len() == 0 {
        Seq::empty()
    } else {
        points_area_spec(points.drop_last()) + point_bytes(points.last().0, points.last().1)
    }
}

/// The signed bytes of a package with the data points `points` (feed id and
/// value each) and timestamp `timestamp_ms`: the points, then the low 6
/// bytes of the timestamp, the value size 32 in 4 bytes, and the low 3 bytes
/// of the point count.
pub open spec fn signed_bytes_spec(points: Seq<(Seq<u8>, u128)>, timestamp_ms: u64) -> Seq<u8> {
    points_area_spec(points) + be_bytes(timestamp_ms as nat, 6) + be_bytes(32, 4) + be_bytes(
        points.len(),
        3,
    )
}

/// The (feed id bytes, value) pairs of a list of data points.
pub open spec fn points_view(points: Seq<GatewayDataPoint>) -> Seq<(Seq<u8>, u128)> {
    points.map_values(|p: GatewayDataPoint| (encode_utf8(p.data_feed_id@), p.value))
}

/// Reading back `n` bytes written by `be_bytes` gives the number modulo `256^n`.
pub proof fn lemma_be_bytes_value(x: nat, n: nat)
    ensures
        be_bytes(x, n).len() == n,
        be_value(be_bytes(x, n)) == x % pow256(n),
    decreases n,
{
    if n > 0 {
        lemma_be_bytes_value(x / 256, (n - 1) as nat);
        let p = pow256((n - 1) as nat);
        assert(be_bytes(x, n).drop_last() =~= be_bytes(x / 256, (n - 1) as nat));
        lemma_pow256_positive((n - 1) as nat);
        lemma_mod_split(x, p);
    }
}

proof fn lemma_pow256_positive(n: nat)
    ensures
        pow256(n) > 0,
    decreases n,
{
    if n > 0 {
        lemma_pow256_positive((n - 1) as nat);
    }
}

proof fn lemma_mod_split(x: nat, p: nat)
    requires
        p > 0,
    ensures
        ((x / 256) % p) * 256 + x % 256 == x % (256 * p),
{
    vstd::arithmetic::div_mod::lemma_breakdown(x as int, 256, p as int);
    assert(256 * ((x / 256) % p) == ((x / 256) % p) * 256) by (nonlinear_arith);
}

/// Append the low `n` bytes of `x` to `out`, most significant first.
fn push_be_bytes(out: &mut Vec<u8>, x: u128, n: usize)
    ensures
        final(out)@ == old(out)@ + be_bytes(x as nat, n as nat),
    decreases n,
{
    if n > 0 {
        push_be_bytes(out, x / 256, n - 1);
        out.push((x % 256) as u8);
        assert(be_bytes(x as nat, n as nat) =~= be_bytes((x / 256) as nat, (n - 1) as nat).push((x % 256) as u8));
    }
}

/// Rebuild the exact byte serialization the data node signed for `pkg`:
/// each data point as its feed id padded with zeros to 32 bytes followed by
/// its value as a 32-byte big-endian number, then the timestamp in 6 bytes,
/// the value size (32) in 4 bytes and the number of points in 3 bytes.
pub fn serialize_signed_bytes(pkg: &GatewayPackage) -> (out: Vec<u8>)
    requires
        forall|i: int|
            0 <= i < pkg.data_points@.len() ==> encode_utf8((#[trigger] pkg.data_points@[i]).data_feed_id@).len()
                <= FEED_ID_BS,
    ensures
        out@ == signed_bytes_spec(points_view(pkg.data_points@), pkg.timestamp_milliseconds),
{
    let mut out: Vec<u8> = Vec::new();
    let ghost points = points_view(pkg.data_points@);
    let mut i: usize = 0;
    while i < pkg.data_points.len()
        invariant
            i <= pkg.data_points@.len(),
            points == points_view(pkg.data_points@),
            forall|k: int|
                0 <= k < pkg.data_points@.len() ==> encode_utf8((#[trigger] pkg.data_points@[k]).data_feed_id@).len()
                    <= FEED_ID_BS,
            out@ == points_area_spec(points.take(i as int)),
        decreases pkg.data_points@.len() - i,
    {
        let dp = &pkg.data_points[i];
        let ghost before = out@;
        let feed_id = dp.data_feed_id.as_str().as_bytes();
        let mut k: usize = 0;
        while k < feed_id.len()
            invariant
                k <= feed_id@.len(),
                out@ == before + feed_id@.take(k as int),
            decreases feed_id@.len() - k,
        {
            out.push(feed_id[k]);
            k = k + 1;
            assert(feed_id@.take(k as int) =~= feed_id@.take(k - 1).push(feed_id@[k - 1]));
        }
        assert(feed_id@.take(feed_id@.len() as int) =~= feed_id@);
        let pad = FEED_ID_BS - feed_id.len();
        let pad_total = pad + (VALUE_BS - 16);
        let mut z: usize = 0;
        while z < pad_total
            invariant
                z <= pad_total,
                out@ == before + feed_id@ + zeros(z as nat),
            decreases pad_total - z,
        {
            out.push(0u8);
            z = z + 1;
            assert(zeros(z as nat) =~= zeros((z - 1) as nat).push(0u8));
        }
        push_be_bytes(&mut out, dp.value, 16);
        proof {
            let fid = feed_id@;
            assert(zeros(pad_total as nat) =~= zeros((32 - fid.len()) as nat) + zeros(16));
            assert(points.take(i + 1).drop_last() =~= points.take(i as int));
            assert(points.take(i + 1).last() == (fid, dp.value));
            assert(out@ =~= points_area_spec(points.take(i + 1)));
        }
        i = i + 1;
    }
    assert(points.take(pkg.data_points@.len() as int) =~= points);
    push_be_bytes(&mut out, pkg.timestamp_milliseconds as u128, TIMESTAMP_BS);
    push_be_bytes(&mut out, VALUE_BS as u128, 4);
    push_be_bytes(&mut out, pkg.data_points.len() as u128, 3);
    out
}

/// The first of `points[i..]` whose feed id is `expected`, read as
/// `parse_package` reads a matching data point.
pub open spec fn lookup_feed_spec(
    points: Seq<(Seq<u8>, u128)>,
    expected: Seq<u8>,
    timestamp_ms: u64,
    i: nat,
) -> Result<ParsedPackage, &'static str>
    decreases points.len() - i,
{
    if i >= points.len() {
        Err("asset identifier mismatch")
    } else if points[i as int].0 == expected {
        if points[i as int].1 == 0 {
            Err("zero or negative value")
        } else {
            Ok(ParsedPackage { value: points[i as int].1, timestamp_ms })
        }
    } else {
        lookup_feed_spec(points, expected, timestamp_ms, i + 1)
    }
}

/// The data points a serializer may write so that a reader can find them
/// again: a feed id holds no zero byte and fits in 32 bytes.
pub open spec fn well_formed_points(points: Seq<(Seq<u8>, u128)>) -> bool {
    forall|i: int|
        0 <= i < points.len() ==> {
            &&& (#[trigger] points[i]).0.len() <= 32
            &&& forall|k: int| 0 <= k < points[i].0.len() ==> points[i].0[k] != 0
        }
}

proof fn lemma_nul_index_no_zero(s: Seq<u8>, t: Seq<u8>)
    requires
        forall|k: int| 0 <= k < s.len() ==> s[k] != 0,
        t.len() == 0 || t[0] == 0,
    ensures
        nul_index(s + t) == s.len(),
    decreases s.len(),
{
    if s.len() > 0 {
        assert((s + t).drop_first() =~= s.drop_first() + t);
        lemma_nul_index_no_zero(s.drop_first(), t);
    } else {
        assert(s + t =~= t);
    }
}

proof fn lemma_point_bytes(feed_id: Seq<u8>, value: u128)
    requires
        feed_id.len() <= 32,
        forall|k: int| 0 <= k < feed_id.len() ==> feed_id[k] != 0,
    ensures
        point_bytes(feed_id, value).len() == 64,
        trim_feed_id(point_bytes(feed_id, value).take(32)) == feed_id,
        point_bytes(feed_id, value).subrange(32, 64) == zeros(16) + be_bytes(value as nat, 16),
{
    lemma_be_bytes_value(value as nat, 16);
    let p = point_bytes(feed_id, value);
    let pad = zeros((32 - feed_id.len()) as nat);
    assert(p.take(32) =~= feed_id + pad);
    lemma_nul_index_no_zero(feed_id, pad);
    assert(trim_feed_id(p.take(32)) =~= feed_id);
    assert(p.subrange(32, 64) =~= zeros(16) + be_bytes(value as nat, 16));
}

proof fn lemma_points_area(points: Seq<(Seq<u8>, u128)>)
    requires
        well_formed_points(points),
    ensures
        points_area_spec(points).len() == 64 * points.len(),
        forall|i: int|
            0 <= i < points.len() ==> data_point(points_area_spec(points), i) == point_bytes(
                #[trigger] points[i].0,
                points[i].1,
            ),
    decreases points.len(),
{
    if points.len() > 0 {
        let init = points.drop_last();
        assert forall|i: int| 0 <= i < init.len() implies (#[trigger] init[i]).0.len() <= 32 && (
        forall|k: int| 0 <= k < init[i].0.len() ==> init[i].0[k] != 0) by {
            assert(init[i] == points[i]);
        }
        lemma_points_area(init);
        let last = points.last();
        assert(points[points.len() - 1] == last);
        lemma_point_bytes(last.0, last.1);
        let area = points_area_spec(points);
        let a0 = points_area_spec(init);
        assert(area == a0 + point_bytes(last.0, last.1));
        assert forall|i: int| 0 <= i < points.len() implies data_point(area, i) == point_bytes(
            #[trigger] points[i].0,
            points[i].1,
        ) by {
            if i < points.len() - 1 {
                assert(init[i] == points[i]);
                assert(data_point(area, i) =~= data_point(a0, i));
            } else {
                assert(data_point(area, i) =~= point_bytes(last.0, last.1));
            }
        }
    }
}

proof fn lemma_search_matches_lookup(
    points: Seq<(Seq<u8>, u128)>,
    expected: Seq<u8>,
    timestamp_ms: u64,
    i: nat,
)
    requires
        well_formed_points(points),
        i <= points.len(),
    ensures
        search_points_spec(points_area_spec(points), expected, timestamp_ms, i, points.len())
            == lookup_feed_spec(points, expected, timestamp_ms, i),
    decreases points.len() - i,
{
    lemma_points_area(points);
    if i < points.len() {
        let pt = points[i as int];
        assert(data_point(points_area_spec(points), i as int) == point_bytes(pt.0, pt.1));
        lemma_point_bytes(pt.0, pt.1);
        lemma_be_bytes_value(pt.1 as nat, 16);
        reveal_with_fuel(pow256, 17);
        vstd::arithmetic::div_mod::lemma_small_mod(pt.1 as nat, pow256(16));
        let vb = point_bytes(pt.0, pt.1).subrange(32, 64);
        assert(vb.subrange(16, 32) =~= be_bytes(pt.1 as nat, 16));
        assert(forall|k: int| 0 <= k < 16 ==> vb[k] == 0);
        lemma_search_matches_lookup(points, expected, timestamp_ms, i + 1);
    }
}

/// Round trip of the signed byte layout: parsing the bytes that
/// `serialize_signed_bytes` writes for a package finds, for any feed, the
/// value of the first data point of that feed and the package timestamp (or
/// rejects a zero value, or reports that the feed is absent). It holds when
/// the timestamp fits the 6 bytes and the point count the 3 bytes that carry
/// them, there is at least one point, and each feed id fits its 32 bytes
/// without a zero byte.
pub proof fn law_parse_reads_back_serialized(
    points: Seq<(Seq<u8>, u128)>,
    timestamp_ms: u64,
    expected: Seq<u8>,
)
    requires
        0 < points.len() < 0x100_0000,
        timestamp_ms < 0x1_0000_0000_0000,
        well_formed_points(points),
    ensures
        parse_package_spec(signed_bytes_spec(points, timestamp_ms), expected) == lookup_feed_spec(
            points,
            expected,
            timestamp_ms,
            0,
        ),
{
    let bytes = signed_bytes_spec(points, timestamp_ms);
    let area = points_area_spec(points);
    lemma_points_area(points);
    lemma_be_bytes_value(timestamp_ms as nat, 6);
    lemma_be_bytes_value(32, 4);
    lemma_be_bytes_value(points.len(), 3);
    reveal_with_fuel(pow256, 7);
    let n = bytes.len();
    assert(n == 64 * points.len() + 13);
    assert(bytes.subrange(n - 13, n - 7) =~= be_bytes(timestamp_ms as nat, 6));
    assert(bytes.subrange(n - 7, n - 3) =~= be_bytes(32, 4));
    assert(bytes.subrange(n - 3, n as int) =~= be_bytes(points.len(), 3));
    vstd::arithmetic::div_mod::lemma_small_mod(timestamp_ms as nat, pow256(6));
    vstd::arithmetic::div_mod::lemma_small_mod(32, pow256(4));
    vstd::arithmetic::div_mod::lemma_small_mod(points.len(), pow256(3));
    assert(trailer_timestamp(bytes) == timestamp_ms);
    assert(trailer_value_size(bytes) == 32);
    assert(trailer_count(bytes) == points.len());
    assert(bytes.take(n - 13) =~= area);
    lemma_search_matches_lookup(points, expected, timestamp_ms, 0);
}

} // verus!
