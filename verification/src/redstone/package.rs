//! The signed byte layout of one RedStone data package, and its parser.

use vstd::prelude::*;
use crate::redstone::encoding::{be_u64, be_value, lemma_be_value_bound, pow256};

verus! {

/// Bytes of a feed identifier inside a data point (zero padded on the right).
pub const FEED_ID_BS: usize = 32;
/// Bytes of the package timestamp (milliseconds, big endian).
pub const TIMESTAMP_BS: usize = 6;
/// Bytes of the "value byte size" field.
pub const VALUE_SIZE_BS: usize = 4;
/// Bytes of the data-point count field.
pub const POINTS_COUNT_BS: usize = 3;
/// Bytes of a recoverable signature (r || s || v).
pub const SIGNATURE_BS: usize = 65;
/// Packages timestamped ahead of `current_timestamp_ms` by more than this
/// are rejected (clock drift allowance, as in RedStone's EVM connector).
pub const MAX_FUTURE_DRIFT_MS: u64 = 60_000;

/// The only value width a package may declare.
pub const VALUE_BS: usize = 32;

/// One data point read from a package: its value and the package timestamp.
pub struct ParsedPackage {
    pub value: u128,
    pub timestamp_ms: u64,
}

/// Number of leading non-zero bytes of `f`.
pub open spec fn nul_index(f: Seq<u8>) -> nat
    decreases f.len(),
{
    if f.len() == 0 {
        0
    } else if f[0] == 0 {
        0
    } else {
        1 + nul_index(f.drop_first())
    }
}

/// A feed identifier with its zero padding cut off: the bytes before the
/// first zero byte, or all of them when there is none.
pub open spec fn trim_feed_id(f: Seq<u8>) -> Seq<u8> {
    f.take(nul_index(f) as int)
}

/// The `i`-th 64-byte data point of a points area.
pub open spec fn data_point(area: Seq<u8>, i: int) -> Seq<u8> {
    area.subrange(64 * i, 64 * i + 64)
}

/// What a data point whose feed id matched yields: its 32-byte value must fit
/// in 128 bits and be non-zero.
pub open spec fn matched_point_spec(point: Seq<u8>, timestamp_ms: u64) -> Result<ParsedPackage, &'static str> {
    let value_bytes = point.subrange(32, 64);
    if exists|k: int| 0 <= k < 16 && value_bytes[k] != 0 {
        Err("value overflows u128")
    } else if be_value(value_bytes.subrange(16, 32)) == 0 {
        Err("zero or negative value")
    } else {
        Ok(ParsedPackage { value: be_value(value_bytes.subrange(16, 32)) as u128, timestamp_ms })
    }
}

/// Scan data points `i..count` for the first one whose trimmed feed id is
/// `expected`.
pub open spec fn search_points_spec(
    area: Seq<u8>,
    expected: Seq<u8>,
    timestamp_ms: u64,
    i: nat,
    count: nat,
) -> Result<ParsedPackage, &'static str>
    decreases count - i,
{
    if i >= count {
        Err("asset identifier mismatch")
    } else if trim_feed_id(data_point(area, i as int).take(32)) == expected {
        matched_point_spec(data_point(area, i as int), timestamp_ms)
    } else {
        search_points_spec(area, expected, timestamp_ms, i + 1, count)
    }
}

/// Timestamp field of the 13-byte trailer.
pub open spec fn trailer_timestamp(bytes: Seq<u8>) -> nat {
    be_value(bytes.subrange(bytes.len() - 13, bytes.len() - 7))
}

/// Value-size field of the 13-byte trailer.
pub open spec fn trailer_value_size(bytes: Seq<u8>) -> nat {
    be_value(bytes.subrange(bytes.len() - 7, bytes.len() - 3))
}

/// Data-point count field of the 13-byte trailer.
pub open spec fn trailer_count(bytes: Seq<u8>) -> nat {
    be_value(bytes.subrange(bytes.len() - 3, bytes.len() as int))
}

/// What parsing a package's signed bytes gives for the feed `expected`.
pub open spec fn parse_package_spec(bytes: Seq<u8>, expected: Seq<u8>) -> Result<ParsedPackage, &'static str> {
    if bytes.len() < 13 {
        Err("malformed: too short")
    } else if trailer_value_size(bytes) != 32 {
        Err("malformed: unexpected value byte size")
    } else if trailer_count(bytes) == 0 || bytes.len() - 13 != trailer_count(bytes) * 64 {
        Err("malformed: data points length mismatch")
    } else {
        search_points_spec(
            bytes.take(bytes.len() - 13),
            expected,
            trailer_timestamp(bytes) as u64,
            0,
            trailer_count(bytes),
        )
    }
}

/// Whether the feed id `feed_id`, its zero padding cut off, is `expected`.
fn feed_id_matches(feed_id: &[u8], expected: &[u8]) -> (r: bool)
    ensures
        r == (trim_feed_id(feed_id@) == expected@),
{
    let mut k: usize = 0;
    assert(feed_id@.skip(0) =~= feed_id@);
    while k < feed_id.len() && feed_id[k] != 0
        invariant
            k <= feed_id@.len(),
            nul_index(feed_id@) == k + nul_index(feed_id@.skip(k as int)),
        decreases feed_id@.len() - k,
    {
        assert(feed_id@.skip(k as int).drop_first() =~= feed_id@.skip(k + 1));
        k = k + 1;
    }
    assert(nul_index(feed_id@) == k);
    if k != expected.len() {
        return false;
    }
    let mut j: usize = 0;
    while j < k
        invariant
            j <= k,
            k == expected@.len(),
            k <= feed_id@.len(),
            nul_index(feed_id@) == k,
            forall|t: int| 0 <= t < j ==> feed_id@[t] == expected@[t],
        decreases k - j,
    {
        if feed_id[j] != expected[j] {
            assert(trim_feed_id(feed_id@)[j as int] != expected@[j as int]);
            return false;
        }
        j = j + 1;
    }
    assert(trim_feed_id(feed_id@) =~= expected@);
    true
}

/// Read one data point whose feed id matched: the high 16 of its 32 value
/// bytes must be zero and the value must not be zero.
fn read_matched_point(point: &[u8], timestamp_ms: u64) -> (r: Result<ParsedPackage, &'static str>)
    requires
        point@.len() == 64,
    ensures
        r == matched_point_spec(point@, timestamp_ms),
{
    let value_bytes = &point[32..64];
    let mut k: usize = 0;
    while k < 16
        invariant
            k <= 16,
            point@.len() == 64,
            value_bytes@ == point@.subrange(32, 64),
            forall|t: int| 0 <= t < k ==> value_bytes@[t] == 0,
        decreases 16 - k,
    {
        if value_bytes[k] != 0 {
            return Err("value overflows u128");
        }
        k = k + 1;
    }
    let value = be_u128(&value_bytes[16..32]);
    if value == 0 {
        return Err("zero or negative value");
    }
    Ok(ParsedPackage { value, timestamp_ms })
}

/// Parse a package's signed bytes and read the value of the feed
/// `expected_feed_id` out of it.
///
/// The bytes end in a 13-byte trailer (timestamp, value byte size, point
/// count); before it stand `count` data points of 64 bytes each (a 32-byte
/// zero-padded feed id, then a 32-byte big-endian value). The first point
/// whose feed id matches decides the result.
pub fn parse_package(signed_bytes: &[u8], expected_feed_id: &[u8]) -> (r: Result<ParsedPackage, &'static str>)
    ensures
        r == parse_package_spec(signed_bytes@, expected_feed_id@),
{
    let meta = TIMESTAMP_BS + VALUE_SIZE_BS + POINTS_COUNT_BS;
    if signed_bytes.len() < meta {
        return Err("malformed: too short");
    }
    let split = signed_bytes.len() - meta;
    let points_area = &signed_bytes[0..split];
    let tail = &signed_bytes[split..signed_bytes.len()];
    let timestamp_ms = be_u64(&tail[0..TIMESTAMP_BS]);
    let value_size_raw = be_u64(&tail[TIMESTAMP_BS..TIMESTAMP_BS + VALUE_SIZE_BS]);
    let count_raw = be_u64(&tail[TIMESTAMP_BS + VALUE_SIZE_BS..meta]);
    proof {
        let b = signed_bytes@;
        assert(tail@.subrange(0, 6) =~= b.subrange(b.len() - 13, b.len() - 7));
        assert(tail@.subrange(6, 10) =~= b.subrange(b.len() - 7, b.len() - 3));
        assert(tail@.subrange(10, 13) =~= b.subrange(b.len() - 3, b.len() as int));
        lemma_be_value_bound(tail@.subrange(0, 6));
        lemma_be_value_bound(tail@.subrange(6, 10));
        lemma_be_value_bound(tail@.subrange(10, 13));
        reveal_with_fuel(pow256, 7);
        vstd::arithmetic::div_mod::lemma_small_mod(trailer_timestamp(b), 0x1_0000_0000_0000_0000);
        vstd::arithmetic::div_mod::lemma_small_mod(trailer_value_size(b), 0x1_0000_0000_0000_0000);
        vstd::arithmetic::div_mod::lemma_small_mod(trailer_count(b), 0x1_0000_0000_0000_0000);
    }
    if value_size_raw != 32 {
        return Err("malformed: unexpected value byte size");
    }
    let value_size: usize = 32;
    let count = count_raw as usize;
    if count == 0 || points_area.len() != count * (FEED_ID_BS + value_size) {
        return Err("malformed: data points length mismatch");
    }
    let point_bs = FEED_ID_BS + value_size;
    let mut i: usize = 0;
    while i < count
        invariant
            i <= count,
            count == trailer_count(signed_bytes@),
            points_area@.len() == count * 64,
            points_area.len() == count * 64,
            point_bs == 64,
            points_area@ == signed_bytes@.take(signed_bytes@.len() - 13),
            parse_package_spec(signed_bytes@, expected_feed_id@) == search_points_spec(
                points_area@,
                expected_feed_id@,
                timestamp_ms,
                i as nat,
                count as nat,
            ),
        decreases count - i,
    {
        assert(i * 64 + 64 <= count * 64) by (nonlinear_arith)
            requires
                i < count,
        ;
        let start = i * 64;
        let point = &points_area[start..start + point_bs];
        assert(point@ =~= data_point(points_area@, i as int));
        assert(point@.take(32) =~= point@.subrange(0, 32));
        if feed_id_matches(&point[0..FEED_ID_BS], expected_feed_id) {
            return read_matched_point(point, timestamp_ms);
        }
        i = i + 1;
    }
    Err("asset identifier mismatch")
}

/// The big-endian value of at most 16 bytes.
fn be_u128(bytes: &[u8]) -> (r: u128)
    requires
        bytes@.len() <= 16,
    ensures
        r as nat == be_value(bytes@),
{
    let mut acc: u128 = 0;
    let mut i: usize = 0;
    while i < bytes.len()
        invariant
            i <= bytes@.len() <= 16,
            acc as nat == be_value(bytes@.take(i as int)),
        decreases bytes@.len() - i,
    {
        let b: u8 = bytes[i];
        proof {
            lemma_be_value_bound(bytes@.take(i as int));
            lemma_pow256_le(i as nat, 15);
            lemma_pow256_15();
            assert(acc < 0x1_0000_0000_0000_0000_0000_0000_0000_00u128);
            assert(((acc << 8u128) | (b as u128)) == (acc as int) * 256 + (b as int)) by (bit_vector)
                requires
                    acc < 0x1_0000_0000_0000_0000_0000_0000_0000_00u128,
            ;
            assert(bytes@.take(i + 1).drop_last() =~= bytes@.take(i as int));
        }
        acc = (acc << 8u128) | (b as u128);
        i = i + 1;
    }
    assert(bytes@.take(bytes@.len() as int) =~= bytes@);
    acc
}

proof fn lemma_pow256_15()
    ensures
        pow256(15) == 0x1_0000_0000_0000_0000_0000_0000_0000_00,
{
    reveal_with_fuel(pow256, 16);
}

proof fn lemma_pow256_le(a: nat, b: nat)
    requires
        a <= b,
    ensures
        pow256(a) <= pow256(b),
    decreases b,
{
    if a < b {
        lemma_pow256_le(a, (b - 1) as nat);
    }
}

} // verus!
