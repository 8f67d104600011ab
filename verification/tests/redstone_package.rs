use lez_signature_bench::redstone::encoding::be_u64;
use lez_signature_bench::redstone::package::parse_package;
use lez_signature_bench::redstone::serialize::{
    serialize_signed_bytes, GatewayDataPoint, GatewayPackage,
};

fn point(feed: &str, value: u128) -> GatewayDataPoint {
    GatewayDataPoint { data_feed_id: feed.to_string(), value }
}

fn package(ts: u64, points: Vec<GatewayDataPoint>) -> GatewayPackage {
    GatewayPackage {
        timestamp_milliseconds: ts,
        signature: String::new(),
        signer_address: String::new(),
        data_points: points,
    }
}

fn raw_point(feed: &[u8], value_bytes: [u8; 32]) -> Vec<u8> {
    let mut out = feed.to_vec();
    out.resize(32, 0);
    out.extend_from_slice(&value_bytes);
    out
}

fn trailer(ts: u64, value_size: u32, count: u32) -> Vec<u8> {
    let mut out = ts.to_be_bytes()[2..].to_vec();
    out.extend_from_slice(&value_size.to_be_bytes());
    out.extend_from_slice(&count.to_be_bytes()[1..]);
    out
}

fn value32(v: u128) -> [u8; 32] {
    let mut b = [0u8; 32];
    b[16..].copy_from_slice(&v.to_be_bytes());
    b
}

#[test]
fn be_u64_reads_big_endian() {
    assert_eq!(be_u64(&[]), 0);
    assert_eq!(be_u64(&[0x01, 0x02]), 0x0102);
    assert_eq!(be_u64(&[0x00, 0x00, 0x20]), 32);
    assert_eq!(be_u64(&[0x01, 0x8f, 0xa2, 0x3c, 0x11, 0x00]), 0x018f_a23c_1100);
}

#[test]
fn be_u64_keeps_low_64_bits() {
    let bytes = [0xffu8, 0x01, 0x02, 0x03, 0x04, 0x05, 0x06, 0x07, 0x08];
    assert_eq!(be_u64(&bytes), 0x0102_0304_0506_0708);
}

#[test]
fn serialized_layout_is_exact() {
    let pkg = package(0x0102_0304_0506, vec![point("XMR", 0x0a0b)]);
    let bytes = serialize_signed_bytes(&pkg);
    assert_eq!(bytes.len(), 64 + 13);
    assert_eq!(&bytes[..3], b"XMR");
    assert!(bytes[3..48].iter().all(|b| *b == 0));
    assert_eq!(&bytes[62..64], &[0x0a, 0x0b]);
    assert_eq!(&bytes[64..70], &[1, 2, 3, 4, 5, 6]);
    assert_eq!(&bytes[70..74], &[0, 0, 0, 32]);
    assert_eq!(&bytes[74..77], &[0, 0, 1]);
}

#[test]
fn parse_reads_back_serialized_package() {
    let pkg = package(
        1_725_000_000_123,
        vec![point("BTC", 6_000_000_000_000), point("XMR", 17_512_345_678), point("ETH", 1)],
    );
    let bytes = serialize_signed_bytes(&pkg);
    let parsed = parse_package(&bytes, b"XMR").unwrap();
    assert_eq!(parsed.value, 17_512_345_678);
    assert_eq!(parsed.timestamp_ms, 1_725_000_000_123);
    let btc = parse_package(&bytes, b"BTC").unwrap();
    assert_eq!(btc.value, 6_000_000_000_000);
    assert_eq!(parse_package(&bytes, b"SOL").err(), Some("asset identifier mismatch"));
}

#[test]
fn parse_takes_first_matching_point() {
    let pkg = package(5, vec![point("XMR", 7), point("XMR", 9)]);
    let bytes = serialize_signed_bytes(&pkg);
    assert_eq!(parse_package(&bytes, b"XMR").unwrap().value, 7);
}

#[test]
fn parse_rejects_zero_value() {
    let pkg = package(5, vec![point("XMR", 0)]);
    let bytes = serialize_signed_bytes(&pkg);
    assert_eq!(parse_package(&bytes, b"XMR").err(), Some("zero or negative value"));
}

#[test]
fn parse_rejects_short_input() {
    assert_eq!(parse_package(&[0u8; 12], b"XMR").err(), Some("malformed: too short"));
    assert_eq!(parse_package(&[], b"XMR").err(), Some("malformed: too short"));
}

#[test]
fn parse_rejects_unexpected_value_size() {
    let mut bytes = raw_point(b"XMR", value32(5));
    bytes.extend(trailer(1, 16, 1));
    assert_eq!(
        parse_package(&bytes, b"XMR").err(),
        Some("malformed: unexpected value byte size")
    );
}

#[test]
fn parse_rejects_length_mismatch() {
    let mut bytes = raw_point(b"XMR", value32(5));
    bytes.extend(trailer(1, 32, 2));
    assert_eq!(
        parse_package(&bytes, b"XMR").err(),
        Some("malformed: data points length mismatch")
    );
    let mut empty = Vec::new();
    empty.extend(trailer(1, 32, 0));
    assert_eq!(
        parse_package(&empty, b"XMR").err(),
        Some("malformed: data points length mismatch")
    );
}

#[test]
fn parse_rejects_value_over_128_bits() {
    let mut v = value32(5);
    v[15] = 1;
    let mut bytes = raw_point(b"XMR", v);
    bytes.extend(trailer(1, 32, 1));
    assert_eq!(parse_package(&bytes, b"XMR").err(), Some("value overflows u128"));
}

#[test]
fn parse_trims_feed_id_at_first_zero() {
    let mut feed = b"XMR".to_vec();
    feed.push(0);
    feed.extend_from_slice(b"junk");
    let mut bytes = raw_point(&feed, value32(42));
    bytes.extend(trailer(9, 32, 1));
    let parsed = parse_package(&bytes, b"XMR").unwrap();
    assert_eq!(parsed.value, 42);
    assert_eq!(parsed.timestamp_ms, 9);
}

#[test]
fn parse_matches_full_width_feed_id() {
    let feed = [b'A'; 32];
    let mut bytes = raw_point(&feed, value32(3));
    bytes.extend(trailer(1, 32, 1));
    assert_eq!(parse_package(&bytes, &feed).unwrap().value, 3);
    assert_eq!(parse_package(&bytes, &feed[..31]).err(), Some("asset identifier mismatch"));
}

#[test]
fn parse_reads_largest_value() {
    let pkg = package(1, vec![point("XMR", u128::MAX)]);
    let bytes = serialize_signed_bytes(&pkg);
    assert_eq!(parse_package(&bytes, b"XMR").unwrap().value, u128::MAX);
}
