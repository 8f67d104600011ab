use k256::ecdsa::SigningKey;
use lez_signature_bench::digest::keccak256;
use lez_signature_bench::redstone::median::{median, sort_values};
use lez_signature_bench::redstone::serialize::{
    serialize_signed_bytes, GatewayDataPoint, GatewayPackage,
};
use lez_signature_bench::redstone::signer::recover_signer;
use lez_signature_bench::redstone::{verify, RedstonePackage, RedstoneVerifyInput, VerifiedPrice};

const NOW: u64 = 1_725_000_000_000;

fn key(seed: u8) -> SigningKey {
    let mut b = [0u8; 32];
    b[31] = seed;
    b[0] = 0x11;
    SigningKey::from_slice(&b).unwrap()
}

fn address(sk: &SigningKey) -> [u8; 20] {
    let point = sk.verifying_key().to_encoded_point(false);
    let hash = keccak256(&point.as_bytes()[1..]);
    let mut a = [0u8; 20];
    a.copy_from_slice(&hash[12..]);
    a
}

fn signed_bytes(feed: &str, value: u128, ts: u64) -> Vec<u8> {
    serialize_signed_bytes(&GatewayPackage {
        timestamp_milliseconds: ts,
        signature: String::new(),
        signer_address: String::new(),
        data_points: vec![GatewayDataPoint { data_feed_id: feed.to_string(), value }],
    })
}

fn sign(sk: &SigningKey, bytes: &[u8]) -> Vec<u8> {
    let digest = keccak256(bytes);
    let (sig, rec) = sk.sign_prehash_recoverable(&digest).unwrap();
    let mut out = sig.to_bytes().to_vec();
    out.push(rec.to_byte() + 27);
    out
}

fn pkg(sk: &SigningKey, value: u128, ts: u64) -> RedstonePackage {
    let signed = signed_bytes("XMR", value, ts);
    let signature = sign(sk, &signed);
    RedstonePackage { signed_bytes: signed, signature }
}

fn input(packages: Vec<RedstonePackage>, signers: Vec<[u8; 20]>, threshold: u8) -> RedstoneVerifyInput {
    RedstoneVerifyInput {
        packages,
        authorized_signers: signers,
        threshold,
        expected_feed_id: b"XMR".to_vec(),
        current_timestamp_ms: NOW,
        max_age_ms: 600_000,
    }
}

#[test]
fn recover_signer_finds_signing_address() {
    let sk = key(1);
    let bytes = signed_bytes("XMR", 5, NOW);
    let sig = sign(&sk, &bytes);
    let digest = keccak256(&bytes);
    assert_eq!(recover_signer(&digest, &sig).unwrap(), address(&sk));
    let mut raw_v = sig.clone();
    raw_v[64] -= 27;
    assert_eq!(recover_signer(&digest, &raw_v).unwrap(), address(&sk));
}

#[test]
fn recover_signer_rejects_bad_signatures() {
    let sk = key(1);
    let bytes = signed_bytes("XMR", 5, NOW);
    let sig = sign(&sk, &bytes);
    let digest = keccak256(&bytes);
    assert_eq!(recover_signer(&digest, &sig[..64]).err(), Some("malformed signature length"));
    let mut zero = sig.clone();
    zero[..64].fill(0);
    assert_eq!(recover_signer(&digest, &zero).err(), Some("malformed signature"));
    let mut bad_v = sig.clone();
    bad_v[64] = 31;
    assert_eq!(recover_signer(&digest, &bad_v).err(), Some("invalid recovery id"));
    let mut other = sig.clone();
    other[64] = 4;
    assert_eq!(recover_signer(&digest, &other).err(), Some("invalid recovery id"));
}

#[test]
fn recover_signer_other_digest_gives_other_address() {
    let sk = key(1);
    let bytes = signed_bytes("XMR", 5, NOW);
    let sig = sign(&sk, &bytes);
    let other = keccak256(b"something else");
    match recover_signer(&other, &sig) {
        Ok(a) => assert_ne!(a, address(&sk)),
        Err(e) => assert_eq!(e, "invalid signature"),
    }
}

#[test]
fn verify_three_of_three_takes_median() {
    let keys = [key(1), key(2), key(3)];
    let signers = keys.iter().map(address).collect::<Vec<_>>();
    let packages = vec![
        pkg(&keys[0], 300, NOW - 10),
        pkg(&keys[1], 100, NOW - 30),
        pkg(&keys[2], 200, NOW - 20),
    ];
    let price = verify(&input(packages, signers, 3)).unwrap();
    assert_eq!(price, VerifiedPrice { value: 200, timestamp_ms: NOW - 30 });
}

#[test]
fn verify_even_count_takes_rounded_down_midpoint() {
    let keys = [key(1), key(2), key(3), key(4)];
    let signers = keys.iter().map(address).collect::<Vec<_>>();
    let packages = vec![
        pkg(&keys[0], 10, NOW),
        pkg(&keys[1], 40, NOW),
        pkg(&keys[2], 21, NOW),
        pkg(&keys[3], 30, NOW),
    ];
    let price = verify(&input(packages, signers, 2)).unwrap();
    assert_eq!(price.value, 25);
    assert_eq!(price.timestamp_ms, NOW);
}

#[test]
fn verify_rejects_threshold_not_met() {
    let keys = [key(1), key(2)];
    let signers = keys.iter().map(address).collect::<Vec<_>>();
    let packages = vec![pkg(&keys[0], 10, NOW), pkg(&keys[1], 20, NOW)];
    assert_eq!(verify(&input(packages, signers, 3)).err().unwrap(), "signer threshold not met");
    assert_eq!(
        verify(&input(vec![], vec![], 1)).err().unwrap(),
        "signer threshold not met"
    );
}

#[test]
fn verify_rejects_unauthorised_signer() {
    let keys = [key(1), key(2)];
    let packages = vec![pkg(&keys[0], 10, NOW), pkg(&keys[1], 20, NOW)];
    let signers = vec![address(&keys[0])];
    assert_eq!(
        verify(&input(packages, signers, 1)).err().unwrap(),
        "signer not in authorised set"
    );
}

#[test]
fn verify_rejects_duplicate_signer() {
    let k = key(1);
    let packages = vec![pkg(&k, 10, NOW), pkg(&k, 11, NOW)];
    assert_eq!(verify(&input(packages, vec![address(&k)], 1)).err().unwrap(), "duplicate signer");
}

#[test]
fn verify_rejects_stale_and_future_packages() {
    let k = key(1);
    let stale = vec![pkg(&k, 10, NOW - 600_001)];
    assert_eq!(verify(&input(stale, vec![address(&k)], 1)).err().unwrap(), "stale data package");
    let edge = vec![pkg(&k, 10, NOW - 600_000)];
    assert!(verify(&input(edge, vec![address(&k)], 1)).is_ok());
    let future = vec![pkg(&k, 10, NOW + 60_001)];
    assert_eq!(
        verify(&input(future, vec![address(&k)], 1)).err().unwrap(),
        "data package timestamp in the future"
    );
    let drift = vec![pkg(&k, 10, NOW + 60_000)];
    assert_eq!(verify(&input(drift, vec![address(&k)], 1)).unwrap().timestamp_ms, NOW + 60_000);
}

#[test]
fn verify_reports_parse_errors() {
    let k = key(1);
    let mut p = pkg(&k, 10, NOW);
    p.signed_bytes.truncate(5);
    assert_eq!(verify(&input(vec![p], vec![address(&k)], 1)).err().unwrap(), "malformed: too short");
    let signed = signed_bytes("BTC", 10, NOW);
    let sig = sign(&k, &signed);
    let p = RedstonePackage { signed_bytes: signed, signature: sig };
    assert_eq!(
        verify(&input(vec![p], vec![address(&k)], 1)).err().unwrap(),
        "asset identifier mismatch"
    );
    let zero = pkg(&k, 0, NOW);
    assert_eq!(
        verify(&input(vec![zero], vec![address(&k)], 1)).err().unwrap(),
        "zero or negative value"
    );
}

#[test]
fn verify_reports_signature_errors() {
    let k = key(1);
    let mut p = pkg(&k, 10, NOW);
    p.signature.pop();
    assert_eq!(
        verify(&input(vec![p], vec![address(&k)], 1)).err().unwrap(),
        "malformed signature length"
    );
}

#[test]
fn verify_tampered_bytes_change_signer() {
    let k = key(1);
    let mut p = pkg(&k, 10, NOW);
    let tampered = signed_bytes("XMR", 11, NOW);
    p.signed_bytes = tampered;
    let r = verify(&input(vec![p], vec![address(&k)], 1));
    assert!(r.is_err());
}

#[test]
fn verify_lower_threshold_keeps_price() {
    let keys = [key(1), key(2), key(3)];
    let signers = keys.iter().map(address).collect::<Vec<_>>();
    let packages = vec![pkg(&keys[0], 7, NOW), pkg(&keys[1], 9, NOW), pkg(&keys[2], 8, NOW)];
    let a = verify(&input(packages.clone(), signers.clone(), 3)).unwrap();
    let b = verify(&input(packages, signers, 1)).unwrap();
    assert_eq!(a, b);
    assert_eq!(a.value, 8);
}

#[test]
fn median_of_values() {
    assert_eq!(median(&vec![5]), 5);
    assert_eq!(median(&vec![3, 1, 2]), 2);
    assert_eq!(median(&vec![4, 1, 3, 2]), 2);
    assert_eq!(median(&vec![u128::MAX, u128::MAX - 1]), u128::MAX - 1);
    assert_eq!(median(&vec![u128::MAX, u128::MAX]), u128::MAX);
}

#[test]
fn median_ignores_order() {
    assert_eq!(median(&vec![9, 2, 7, 4, 4]), median(&vec![4, 4, 2, 9, 7]));
}

#[test]
fn sort_values_sorts() {
    assert_eq!(sort_values(&vec![3, 1, 2, 1]), vec![1, 1, 2, 3]);
    assert_eq!(sort_values(&vec![]), Vec::<u128>::new());
}

#[test]
fn verify_price_ignores_package_order() {
    let keys = [key(1), key(2), key(3), key(4)];
    let signers = keys.iter().map(address).collect::<Vec<_>>();
    let packages = vec![
        pkg(&keys[0], 300, NOW - 10),
        pkg(&keys[1], 100, NOW - 30),
        pkg(&keys[2], 200, NOW - 20),
        pkg(&keys[3], 250, NOW - 5),
    ];
    let mut reordered = packages.clone();
    reordered.reverse();
    reordered.swap(0, 2);
    let a = verify(&input(packages, signers.clone(), 4)).unwrap();
    let b = verify(&input(reordered, signers, 4)).unwrap();
    assert_eq!(a, VerifiedPrice { value: 225, timestamp_ms: NOW - 30 });
    assert_eq!(a, b);
}

#[test]
fn verify_wider_roster_keeps_price() {
    let keys = [key(1), key(2), key(3), key(4)];
    let packages = vec![pkg(&keys[0], 300, NOW - 10), pkg(&keys[1], 100, NOW - 30)];
    let narrow = vec![address(&keys[0]), address(&keys[1])];
    let wide = vec![address(&keys[3]), address(&keys[1]), address(&keys[2]), address(&keys[0])];
    let a = verify(&input(packages.clone(), narrow, 2)).unwrap();
    let b = verify(&input(packages, wide, 1)).unwrap();
    assert_eq!(a, VerifiedPrice { value: 200, timestamp_ms: NOW - 30 });
    assert_eq!(a, b);
}
