use k256::ecdsa::SigningKey;
use lez_signature_bench::bench::base64::decode_base64;
use lez_signature_bench::bench::recover::recover_address;
use lez_signature_bench::bench::roster::authorized_roster;
use lez_signature_bench::bench::select::{select_packages, select_packages_checked, PrecheckEntry};
use lez_signature_bench::digest::keccak256;
use lez_signature_bench::redstone::signer::recover_signer;
use lez_signature_bench::redstone::serialize::{
    serialize_signed_bytes, GatewayDataPoint, GatewayPackage,
};

const B64: &[u8; 64] = b"ABCDEFGHIJKLMNOPQRSTUVWXYZabcdefghijklmnopqrstuvwxyz0123456789+/";

fn encode_base64(bytes: &[u8]) -> String {
    let mut out = String::new();
    for chunk in bytes.chunks(3) {
        let b = [chunk[0], *chunk.get(1).unwrap_or(&0), *chunk.get(2).unwrap_or(&0)];
        let n = (u32::from(b[0]) << 16) | (u32::from(b[1]) << 8) | u32::from(b[2]);
        out.push(B64[(n >> 18) as usize & 63] as char);
        out.push(B64[(n >> 12) as usize & 63] as char);
        out.push(if chunk.len() > 1 { B64[(n >> 6) as usize & 63] as char } else { '=' });
        out.push(if chunk.len() > 2 { B64[n as usize & 63] as char } else { '=' });
    }
    out
}

fn key(seed: u8) -> SigningKey {
    let mut b = [0u8; 32];
    b[0] = 0x31;
    b[31] = seed;
    SigningKey::from_slice(&b).unwrap()
}

fn address(sk: &SigningKey) -> [u8; 20] {
    let point = sk.verifying_key().to_encoded_point(false);
    let hash = keccak256(&point.as_bytes()[1..]);
    let mut a = [0u8; 20];
    a.copy_from_slice(&hash[12..]);
    a
}

fn hex(bytes: &[u8]) -> String {
    bytes.iter().map(|b| format!("{b:02x}")).collect()
}

fn gateway_package(sk: &SigningKey, ts: u64, value: u128) -> GatewayPackage {
    let mut pkg = GatewayPackage {
        timestamp_milliseconds: ts,
        signature: String::new(),
        signer_address: format!("0x{}", hex(&address(sk))),
        data_points: vec![GatewayDataPoint { data_feed_id: "XMR".to_string(), value }],
    };
    let signed = serialize_signed_bytes(&pkg);
    let (sig, rec) = sk.sign_prehash_recoverable(&keccak256(&signed)).unwrap();
    let mut raw = sig.to_bytes().to_vec();
    raw.push(rec.to_byte() + 27);
    pkg.signature = encode_base64(&raw);
    pkg
}

#[test]
fn decode_base64_standard_texts() {
    assert_eq!(decode_base64("aGVsbG8=").unwrap(), b"hello".to_vec());
    assert_eq!(decode_base64("aGVsbA==").unwrap(), b"hell".to_vec());
    assert_eq!(decode_base64("aGVs").unwrap(), b"hel".to_vec());
    assert_eq!(decode_base64("").unwrap(), Vec::<u8>::new());
    assert_eq!(decode_base64("+/+/").unwrap(), vec![0xfb, 0xff, 0xbf]);
}

#[test]
fn decode_base64_undoes_standard_encoding() {
    let cases: [(&str, &str, &str); 7] = [
        ("", "", ""),
        ("f", "Zg==", "Zg"),
        ("fo", "Zm8=", "Zm8"),
        ("foo", "Zm9v", "Zm9v"),
        ("foob", "Zm9vYg==", "Zm9vYg"),
        ("fooba", "Zm9vYmE=", "Zm9vYmE"),
        ("foobar", "Zm9vYmFy", "Zm9vYmFy"),
    ];
    for (plain, padded, unpadded) in cases {
        assert_eq!(decode_base64(padded).unwrap(), plain.as_bytes().to_vec());
        assert_eq!(decode_base64(unpadded).unwrap(), plain.as_bytes().to_vec());
    }
    assert_eq!(decode_base64("AP8Q").unwrap(), vec![0x00, 0xff, 0x10]);
}

#[test]
fn decode_base64_concatenates_at_four_digit_boundaries() {
    let a = decode_base64("Zm9vYmFy").unwrap();
    let b = decode_base64("YmF6").unwrap();
    let c = decode_base64("cXV4eA").unwrap();
    let mut ab = a.clone();
    ab.extend_from_slice(&b);
    assert_eq!(decode_base64("Zm9vYmFyYmF6").unwrap(), ab);
    let mut ac = a.clone();
    ac.extend_from_slice(&c);
    assert_eq!(decode_base64("Zm9vYmFycXV4eA").unwrap(), ac);
    assert_eq!(ac, b"foobarquxx".to_vec());
}

#[test]
fn decode_base64_is_lenient_about_padding() {
    assert_eq!(decode_base64("aGVsbG8").unwrap(), b"hello".to_vec());
    assert_eq!(decode_base64("aG=VsbG8=").unwrap(), b"hello".to_vec());
    assert_eq!(decode_base64("====").unwrap(), Vec::<u8>::new());
}

#[test]
fn decode_base64_errors() {
    assert_eq!(decode_base64("aGV!").unwrap_err(), "invalid base64 byte 33");
    assert_eq!(decode_base64("a b").unwrap_err(), "invalid base64 byte 32");
    assert_eq!(decode_base64("aGVsb").unwrap_err(), "truncated base64");
    assert_eq!(decode_base64("aGVsb\u{e9}").unwrap_err(), "invalid base64 byte 195");
    assert_eq!(decode_base64("a\n").unwrap_err(), "invalid base64 byte 10");
}

#[test]
fn decode_base64_length_law_examples() {
    for n in 0..20usize {
        let bytes: Vec<u8> = (0..n as u8).map(|b| b.wrapping_mul(37)).collect();
        let text = encode_base64(&bytes);
        let decoded = decode_base64(&text).unwrap();
        assert_eq!(decoded, bytes);
        let digits = text.bytes().filter(|b| *b != b'=').count();
        assert_eq!(decoded.len(), 3 * digits / 4);
    }
}

#[test]
fn recover_address_matches_signer() {
    let sk = key(1);
    let digest = keccak256(b"payload");
    let (sig, rec) = sk.sign_prehash_recoverable(&digest).unwrap();
    let mut raw = sig.to_bytes().to_vec();
    raw.push(rec.to_byte());
    assert_eq!(recover_address(&digest, &raw).unwrap(), address(&sk));
    raw.push(0xaa);
    assert_eq!(recover_address(&digest, &raw).unwrap(), address(&sk));
}

#[test]
fn recover_address_labels_errors() {
    let sk = key(1);
    let digest = keccak256(b"payload");
    let (sig, _) = sk.sign_prehash_recoverable(&digest).unwrap();
    let mut raw = sig.to_bytes().to_vec();
    raw.push(9);
    let e = recover_address(&digest, &raw).unwrap_err();
    assert_eq!(e, "recid: signature error");
    let zero = vec![0u8; 65];
    let e = recover_address(&digest, &zero).unwrap_err();
    assert_eq!(e, "sig: signature error");
}

#[test]
fn roster_lists_distinct_signers_in_order() {
    let a = key(1);
    let b = key(2);
    let pkgs = vec![
        gateway_package(&a, 1, 5),
        gateway_package(&b, 1, 5),
        gateway_package(&a, 2, 6),
    ];
    assert_eq!(authorized_roster(&pkgs), vec![address(&a), address(&b)]);
}

#[test]
fn roster_accepts_upper_case_and_bare_hex() {
    let a = key(1);
    let mut p = gateway_package(&a, 1, 5);
    p.signer_address = hex(&address(&a)).to_uppercase();
    let mut q = gateway_package(&a, 1, 5);
    q.signer_address = format!("0x0x{}", hex(&address(&a)));
    assert_eq!(authorized_roster(&vec![p, q]), vec![address(&a)]);
}

#[test]
fn select_keeps_first_n_roster_signers() {
    let a = key(1);
    let b = key(2);
    let c = key(3);
    let outsider = key(4);
    let pkgs = vec![
        gateway_package(&a, 100, 5),
        gateway_package(&outsider, 150, 5),
        gateway_package(&b, 300, 6),
        gateway_package(&c, 200, 7),
    ];
    let roster = vec![address(&a), address(&b), address(&c)];
    let sel = select_packages(&pkgs, &roster, 2);
    assert_eq!(sel.packages.len(), 2);
    assert_eq!(sel.newest_ts, 300);
    assert_eq!(sel.log.len(), 3);
    match &sel.log[0] {
        PrecheckEntry::Accepted { signer, timestamp_ms, signed_len } => {
            assert_eq!(*signer, address(&a));
            assert_eq!(*timestamp_ms, 100);
            assert_eq!(*signed_len, 77);
        }
        _ => panic!("first package should be accepted"),
    }
    match &sel.log[1] {
        PrecheckEntry::NotInRoster { signer } => assert_eq!(*signer, address(&outsider)),
        _ => panic!("second package should be outside the roster"),
    }
    assert_eq!(sel.packages[1].signed_bytes, serialize_signed_bytes(&pkgs[2]));
}

#[test]
fn select_logs_failed_recovery() {
    let a = key(1);
    let mut broken = gateway_package(&a, 100, 5);
    broken.signature = encode_base64(&[0u8; 65]);
    let pkgs = vec![broken, gateway_package(&a, 120, 5)];
    let sel = select_packages(&pkgs, &vec![address(&a)], 5);
    assert_eq!(sel.log.len(), 2);
    match &sel.log[0] {
        PrecheckEntry::Failed { error } => assert!(error.starts_with("sig: ")),
        _ => panic!("first package should fail"),
    }
    assert_eq!(sel.packages.len(), 1);
    assert_eq!(sel.newest_ts, 120);
}

#[test]
fn select_checked_flags_undecodable_signature() {
    let a = key(1);
    let mut bad = gateway_package(&a, 100, 5);
    bad.signature = "!!!!".to_string();
    let good = gateway_package(&a, 90, 5);
    let roster = vec![address(&a)];
    assert!(select_packages_checked(&vec![bad.clone()], &roster, 1).is_none());
    let sel = select_packages_checked(&vec![good, bad], &roster, 1).unwrap();
    assert_eq!(sel.packages.len(), 1);
    assert_eq!(sel.log.len(), 1);
}

#[test]
fn host_and_verifier_recover_the_same_signer() {
    let sk = key(7);
    let digest = keccak256(b"package bytes");
    let (sig, rec) = sk.sign_prehash_recoverable(&digest).unwrap();
    let mut raw = sig.to_bytes().to_vec();
    raw.push(rec.to_byte() + 27);
    assert_eq!(recover_signer(&digest, &raw).unwrap(), recover_address(&digest, &raw).unwrap());
    raw[64] = 30;
    assert!(recover_signer(&digest, &raw).is_err());
    assert!(recover_address(&digest, &raw).is_err());
}
