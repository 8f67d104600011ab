use ed25519_dalek::Signer;
use hbs_lms::signature::SignerMut;
use k256::ecdsa::signature::hazmat::PrehashSigner;
use lez_signature_bench::digest::{keccak256, sha256};
use lez_signature_bench::schemes::lms::layout::{hss_key_end_of, hss_signature_end_of, parses_safely, ParseEnd};
use lez_signature_bench::schemes::{ecdsa_k256, ecdsa_p256, ed25519, lms, schnorr_k256};
use lez_signature_bench::{SignerVerification, VerifyInput};

const MSG: &[u8] = b"hello redstone";

fn seed(n: u8) -> [u8; 32] {
    let mut b = [0u8; 32];
    b[0] = 0x21;
    b[31] = n;
    b
}

fn k256_signer(n: u8, msg: &[u8]) -> SignerVerification {
    let sk = k256::ecdsa::SigningKey::from_slice(&seed(n)).unwrap();
    let sig: k256::ecdsa::Signature = sk.sign_prehash(&keccak256(msg)).unwrap();
    SignerVerification {
        pubkey: sk.verifying_key().to_encoded_point(true).as_bytes().to_vec(),
        signature: sig.to_bytes().to_vec(),
    }
}

fn p256_signer(n: u8, msg: &[u8]) -> SignerVerification {
    let sk = p256::ecdsa::SigningKey::from_slice(&seed(n)).unwrap();
    let sig: p256::ecdsa::Signature = sk.sign_prehash(&sha256(msg)).unwrap();
    SignerVerification {
        pubkey: sk.verifying_key().to_encoded_point(false).as_bytes().to_vec(),
        signature: sig.to_bytes().to_vec(),
    }
}

fn schnorr_signer(n: u8, msg: &[u8]) -> SignerVerification {
    let sk = k256::schnorr::SigningKey::from_bytes(&seed(n)).unwrap();
    let sig: k256::schnorr::Signature = sk.sign_prehash(&sha256(msg)).unwrap();
    SignerVerification {
        pubkey: sk.verifying_key().to_bytes().to_vec(),
        signature: sig.to_bytes().to_vec(),
    }
}

fn ed25519_signer(n: u8, msg: &[u8]) -> SignerVerification {
    let sk = ed25519_dalek::SigningKey::from_bytes(&seed(n));
    SignerVerification {
        pubkey: sk.verifying_key().to_bytes().to_vec(),
        signature: sk.sign(msg).to_bytes().to_vec(),
    }
}

fn lms_signer(n: u8, msg: &[u8]) -> SignerVerification {
    let params = [hbs_lms::HssParameter::<hbs_lms::Sha256_256>::new(
        hbs_lms::LmotsAlgorithm::LmotsW8,
        hbs_lms::LmsAlgorithm::LmsH5,
    )];
    let seed = hbs_lms::Seed::<hbs_lms::Sha256_256>::from(seed(n));
    let (mut sk, vk) = hbs_lms::keygen::<hbs_lms::Sha256_256>(&params, &seed, None).unwrap();
    let sig = sk.try_sign(msg).unwrap();
    SignerVerification { pubkey: vk.as_slice().to_vec(), signature: sig.as_ref().to_vec() }
}

fn input(signers: Vec<SignerVerification>) -> VerifyInput {
    VerifyInput { message: MSG.to_vec(), signers }
}

#[test]
fn ecdsa_k256_accepts_valid_signers() {
    let i = input(vec![k256_signer(1, MSG), k256_signer(2, MSG), k256_signer(3, MSG)]);
    assert_eq!(ecdsa_k256::verify_all(&i), Ok(()));
    assert_eq!(ecdsa_k256::verify_all(&input(vec![])), Ok(()));
}

#[test]
fn ecdsa_k256_reports_first_failure() {
    let mut bad_key = k256_signer(2, MSG);
    bad_key.pubkey = vec![4, 1, 2];
    let i = input(vec![k256_signer(1, MSG), bad_key, k256_signer(3, b"other")]);
    assert_eq!(ecdsa_k256::verify_all(&i), Err("pubkey".to_string()));
    let mut bad_sig = k256_signer(2, MSG);
    bad_sig.signature.truncate(63);
    assert_eq!(ecdsa_k256::verify_all(&input(vec![bad_sig])), Err("sig".to_string()));
    let wrong = k256_signer(3, b"other");
    assert_eq!(ecdsa_k256::verify_all(&input(vec![k256_signer(1, MSG), wrong])), Err("verify".to_string()));
}

#[test]
fn verify_all_gives_first_failing_single_check() {
    let good = k256_signer(1, MSG);
    let mut bad_sig = k256_signer(2, MSG);
    bad_sig.signature.truncate(63);
    let wrong = k256_signer(3, b"other");
    let all = ecdsa_k256::verify_all(&input(vec![good.clone(), bad_sig.clone(), wrong.clone()]));
    assert_eq!(ecdsa_k256::verify_all(&input(vec![good.clone()])), Ok(()));
    assert_eq!(all, ecdsa_k256::verify_all(&input(vec![bad_sig])));
    assert_eq!(all, Err("sig".to_string()));
    let ed = vec![ed25519_signer(1, MSG), ed25519_signer(2, b"x"), ed25519_signer(3, MSG)];
    assert_eq!(ed25519::verify_all(&input(ed.clone())), ed25519::verify_all(&input(vec![ed[1].clone()])));
}

#[test]
fn verify_all_gives_first_failing_single_check_each_scheme() {
    let p = vec![p256_signer(1, MSG), p256_signer(2, b"x"), p256_signer(3, b"y")];
    assert_eq!(ecdsa_p256::verify_all(&input(vec![p[0].clone()])), Ok(()));
    assert_eq!(ecdsa_p256::verify_all(&input(p.clone())), ecdsa_p256::verify_all(&input(vec![p[1].clone()])));
    let mut bad_key = schnorr_signer(2, MSG);
    bad_key.pubkey = vec![0xff; 32];
    let sc = vec![schnorr_signer(1, MSG), bad_key, schnorr_signer(3, b"x")];
    assert_eq!(schnorr_k256::verify_all(&input(vec![sc[0].clone()])), Ok(()));
    assert_eq!(schnorr_k256::verify_all(&input(vec![sc[2].clone()])), Err("verify".to_string()));
    assert_eq!(schnorr_k256::verify_all(&input(sc.clone())), schnorr_k256::verify_all(&input(vec![sc[1].clone()])));
    assert_eq!(schnorr_k256::verify_all(&input(sc)), Err("pubkey".to_string()));
    let l = vec![lms_signer(1, MSG), lms_signer(2, b"x")];
    assert_eq!(lms::verify_all(&input(vec![l[0].clone()])), Ok(()));
    assert_eq!(lms::verify_all(&input(l.clone())), lms::verify_all(&input(vec![l[1].clone()])));
    assert_eq!(lms::verify_all(&input(vec![l[0].clone(), l[0].clone()])), Ok(()));
}

#[test]
fn ecdsa_p256_accepts_and_rejects() {
    assert_eq!(ecdsa_p256::verify_all(&input(vec![p256_signer(1, MSG), p256_signer(2, MSG)])), Ok(()));
    let mut bad_key = p256_signer(1, MSG);
    bad_key.pubkey[0] = 9;
    assert_eq!(ecdsa_p256::verify_all(&input(vec![bad_key])), Err("pubkey".to_string()));
    let mut bad_sig = p256_signer(1, MSG);
    bad_sig.signature = vec![0u8; 64];
    assert_eq!(ecdsa_p256::verify_all(&input(vec![bad_sig])), Err("sig".to_string()));
    assert_eq!(ecdsa_p256::verify_all(&input(vec![p256_signer(1, b"x")])), Err("verify".to_string()));
}

#[test]
fn schnorr_accepts_and_rejects() {
    assert_eq!(schnorr_k256::verify_all(&input(vec![schnorr_signer(1, MSG), schnorr_signer(2, MSG)])), Ok(()));
    let mut bad_sig = schnorr_signer(1, MSG);
    bad_sig.signature = vec![0u8; 64];
    assert_eq!(schnorr_k256::verify_all(&input(vec![bad_sig])), Err("sig".to_string()));
    assert_eq!(schnorr_k256::verify_all(&input(vec![schnorr_signer(1, b"x")])), Err("verify".to_string()));
    let mut bad_key = schnorr_signer(1, MSG);
    bad_key.pubkey = vec![0xff; 32];
    assert_eq!(schnorr_k256::verify_all(&input(vec![bad_key])), Err("pubkey".to_string()));
}

#[test]
fn schnorr_checked_flags_inputs_that_would_panic() {
    let mut short_key = schnorr_signer(1, MSG);
    short_key.pubkey.truncate(31);
    assert!(schnorr_k256::verify_all_checked(&input(vec![short_key.clone()])).is_none());
    let mut short_sig = schnorr_signer(1, MSG);
    short_sig.signature.truncate(10);
    assert!(schnorr_k256::verify_all_checked(&input(vec![short_sig])).is_none());
    let wrong = schnorr_signer(2, b"x");
    assert_eq!(
        schnorr_k256::verify_all_checked(&input(vec![wrong, short_key])),
        Some(Err("verify".to_string()))
    );
    assert_eq!(schnorr_k256::verify_all_checked(&input(vec![schnorr_signer(3, MSG)])), Some(Ok(())));
}

#[test]
fn ed25519_accepts_and_rejects() {
    assert_eq!(ed25519::verify_all(&input(vec![ed25519_signer(1, MSG), ed25519_signer(2, MSG)])), Ok(()));
    let mut short = ed25519_signer(1, MSG);
    short.pubkey.pop();
    assert_eq!(ed25519::verify_all(&input(vec![short])), Err("pubkey-len".to_string()));
    let mut bad_sig = ed25519_signer(1, MSG);
    bad_sig.signature.pop();
    assert_eq!(ed25519::verify_all(&input(vec![bad_sig])), Err("sig".to_string()));
    assert_eq!(ed25519::verify_all(&input(vec![ed25519_signer(1, b"x")])), Err("verify".to_string()));
}

#[test]
fn ed25519_rejects_key_off_curve() {
    let mut bad = ed25519_signer(1, MSG);
    bad.pubkey = vec![0u8; 32];
    bad.pubkey[0] = 2;
    let r = ed25519::verify_all(&input(vec![bad]));
    assert!(r == Err("pubkey".to_string()) || r == Err("verify".to_string()));
}

#[test]
fn lms_accepts_and_rejects() {
    let good = lms_signer(1, MSG);
    assert_eq!(lms::verify_all(&input(vec![good.clone()])), Ok(()));
    let mut bad = good.clone();
    bad.signature[40] ^= 1;
    assert_eq!(lms::verify_all(&input(vec![good, bad])), Err("verify".to_string()));
}

#[test]
fn lms_layout_of_a_genuine_signature() {
    let good = lms_signer(1, MSG);
    // level count, then leaf index, W8 one-time signature (34 chains), H5 path
    assert_eq!(good.signature.len(), 4 + 4 + 4 + 32 + 32 * 34 + 4 + 32 * 5);
    assert_eq!(hss_signature_end_of(&good.signature), ParseEnd::Read(good.signature.len()));
    assert_eq!(good.pubkey.len(), 60);
    assert_eq!(hss_key_end_of(&good.pubkey), ParseEnd::Read(60));
    assert!(parses_safely(&good.signature, &good.pubkey));
}

#[test]
fn lms_layout_refusals_and_panics() {
    let good = lms_signer(1, MSG);
    assert_eq!(hss_signature_end_of(&good.signature[..3]), ParseEnd::Panics);
    assert_eq!(hss_signature_end_of(&good.signature[..1000]), ParseEnd::Panics);
    let mut unknown_ots = good.signature.clone();
    unknown_ots[11] = 9;
    assert_eq!(hss_signature_end_of(&unknown_ots), ParseEnd::Panics);
    let mut leaf_out_of_tree = good.signature.clone();
    leaf_out_of_tree[4] = 0xff;
    assert_eq!(hss_signature_end_of(&leaf_out_of_tree), ParseEnd::Rejected);
    assert!(parses_safely(&leaf_out_of_tree, &[]));
    let mut unknown_tree = good.pubkey.clone();
    unknown_tree[7] = 0;
    assert_eq!(hss_key_end_of(&unknown_tree), ParseEnd::Rejected);
    assert_eq!(hss_key_end_of(&good.pubkey[..30]), ParseEnd::Panics);
    assert!(!parses_safely(&good.signature, &good.pubkey[..30]));
}

#[test]
fn lms_checked_flags_inputs_that_would_panic() {
    let good = lms_signer(1, MSG);
    let mut short_sig = good.clone();
    short_sig.signature.truncate(3);
    assert!(lms::verify_all_checked(&input(vec![short_sig.clone()])).is_none());
    let mut short_key = good.clone();
    short_key.pubkey.truncate(30);
    assert!(lms::verify_all_checked(&input(vec![short_key])).is_none());
    let mut unknown_tree = good.clone();
    unknown_tree.pubkey[7] = 0;
    assert_eq!(lms::verify_all_checked(&input(vec![unknown_tree])), Some(Err("verify".to_string())));
    let wrong = lms_signer(2, b"x");
    assert_eq!(
        lms::verify_all_checked(&input(vec![wrong, short_sig])),
        Some(Err("verify".to_string()))
    );
    assert_eq!(lms::verify_all_checked(&input(vec![good])), Some(Ok(())));
}

#[test]
fn digests_of_known_inputs() {
    let k = keccak256(b"");
    assert_eq!(k[..4], [0xc5, 0xd2, 0x46, 0x01]);
    let s = sha256(b"abc");
    assert_eq!(s[..4], [0xba, 0x78, 0x16, 0xbf]);
}
