//! Recovering the Ethereum-style address that signed a RedStone package.

use vstd::prelude::*;
use crate::digest::{keccak256, keccak256_spec};
use crate::redstone::package::SIGNATURE_BS;

verus! {

/// Whether `k256::ecdsa::Signature::from_slice` accepts `bytes` as an
/// `r || s` signature.
pub uninterp spec fn k256_ecdsa_signature_ok(bytes: Seq<u8>) -> bool;

/// The uncompressed SEC1 encoding of the secp256k1 key that
/// `k256::ecdsa::VerifyingKey::recover_from_prehash` recovers from the
/// prehash `digest`, the `r || s` signature `sig` and the recovery id `rec`,
/// or `None` where recovery fails.
pub uninterp spec fn k256_recovered_key(digest: Seq<u8>, sig: Seq<u8>, rec: u8) -> Option<Seq<u8>>;

/// `k256::ecdsa::Signature::from_slice(bytes)`, keeping only whether it
/// succeeded and, on failure, the error's display text. Claims: success is
/// the named predicate `k256_ecdsa_signature_ok`; success needs 64 bytes
/// (the source tests the length first); the error text is "signature error"
/// (every failure is a `signature::Error::new()`, which has no source and
/// displays itself so).
#[verifier::external_body]
pub(crate) fn k256_signature_from_slice(bytes: &[u8]) -> (r: Result<(), String>)
    ensures
        r is Ok <==> k256_ecdsa_signature_ok(bytes@),
        r is Ok ==> bytes@.len() == 64,
        r matches Err(t) ==> t@ == "signature error"@,
{
    match k256::ecdsa::Signature::from_slice(bytes) {
        Ok(_) => Ok(()),
        Err(e) => Err(format!("{e}")),
    }
}

/// `<k256::ecdsa::RecoveryId as TryFrom<u8>>::try_from(byte)`, keeping only
/// whether it succeeded and, on failure, the error's display text. Claims:
/// success exactly for the bytes 0 to 3 (`RecoveryId::from_byte` tests
/// `byte <= 3`); the error text is "signature error" (the failure is a
/// `signature::Error::new()`).
#[verifier::external_body]
pub(crate) fn k256_recovery_id_try_from(byte: u8) -> (r: Result<(), String>)
    ensures
        r is Ok <==> byte <= 3,
        r matches Err(t) ==> t@ == "signature error"@,
{
    match k256::ecdsa::RecoveryId::try_from(byte) {
        Ok(_) => Ok(()),
        Err(e) => Err(format!("{e}")),
    }
}

/// `k256::ecdsa::VerifyingKey::recover_from_prehash(digest, sig, rec)`, the
/// signature and recovery id built from their bytes as the two functions
/// above build them, and the recovered key given back as
/// `to_encoded_point(false)`, its uncompressed SEC1 encoding. Claims: the
/// result is the named `k256_recovered_key` of the three arguments; an
/// uncompressed encoding has 65 bytes; the error text is "signature error"
/// (each failure on this path, including the check that the recovered key
/// verifies the signature, is a `signature::Error::new()`).
#[verifier::external_body]
pub(crate) fn k256_recover_from_prehash(digest: &[u8; 32], sig: &[u8], rec: u8) -> (r: Result<Vec<u8>, String>)
    requires
        k256_ecdsa_signature_ok(sig@),
        rec <= 3,
    ensures
        r is Ok <==> k256_recovered_key(digest@, sig@, rec) is Some,
        r matches Ok(p) ==> Some(p@) == k256_recovered_key(digest@, sig@, rec) && p@.len() == 65,
        r matches Err(t) ==> t@ == "signature error"@,
{
    let sig = match k256::ecdsa::Signature::from_slice(sig) {
        Ok(s) => s,
        Err(e) => return Err(format!("{e}")),
    };
    let id = match k256::ecdsa::RecoveryId::try_from(rec) {
        Ok(id) => id,
        Err(e) => return Err(format!("{e}")),
    };
    match k256::ecdsa::VerifyingKey::recover_from_prehash(digest, &sig, id) {
        Ok(vk) => Ok(vk.to_encoded_point(false).as_bytes().to_vec()),
        Err(e) => Err(format!("{e}")),
    }
}

/// The recovery id a signature's last byte carries: Ethereum writes 27 or 28,
/// other signers 0 or 1.
pub open spec fn recovery_id_of(v: u8) -> u8 {
    if v >= 27 {
        (v - 27) as u8
    } else {
        v
    }
}

/// The 20-byte address of a key given by its uncompressed SEC1 encoding: the
/// last 20 bytes of the Keccak-256 of the encoding without its tag byte.
pub open spec fn address_of_key(uncompressed: Seq<u8>) -> Seq<u8> {
    keccak256_spec(uncompressed.skip(1)).subrange(12, 32)
}

/// Which address signed the prehash `digest`, given a 65-byte `r || s || v`
/// signature, or why none can be recovered.
pub open spec fn recover_signer_spec(digest: Seq<u8>, signature: Seq<u8>) -> Result<Seq<u8>, &'static str> {
    if signature.len() != 65 {
        Err("malformed signature length")
    } else if !k256_ecdsa_signature_ok(signature.take(64)) {
        Err("malformed signature")
    } else if recovery_id_of(signature[64]) > 3 {
        Err("invalid recovery id")
    } else {
        match k256_recovered_key(digest, signature.take(64), recovery_id_of(signature[64])) {
            Some(key) => Ok(address_of_key(key)),
            None => Err("invalid signature"),
        }
    }
}

/// The address of a recovered key.
pub(crate) fn address_from_key(uncompressed: &[u8]) -> (address: [u8; 20])
    requires
        uncompressed@.len() == 65,
    ensures
        address@ == address_of_key(uncompressed@),
{
    let hash = keccak256(&uncompressed[1..65]);
    assert(uncompressed@.subrange(1, 65) =~= uncompressed@.skip(1));
    let mut address = [0u8; 20];
    let mut k: usize = 0;
    while k < 20
        invariant
            k <= 20,
            hash@ == keccak256_spec(uncompressed@.skip(1)),
            hash@.len() == 32,
            forall|t: int| 0 <= t < k ==> address@[t] == hash@[12 + t],
        decreases 20 - k,
    {
        address.set(k, hash[12 + k]);
        k = k + 1;
    }
    assert(address@ =~= address_of_key(uncompressed@));
    address
}

/// Recover the address that signed the prehash `digest` from a 65-byte
/// recoverable signature (`r || s || v`, `v` being 0, 1, 27 or 28).
pub fn recover_signer(digest: &[u8; 32], signature: &[u8]) -> (r: Result<[u8; 20], &'static str>)
    ensures
        match r {
            Ok(a) => recover_signer_spec(digest@, signature@) == Ok::<Seq<u8>, &'static str>(a@),
            Err(e) => recover_signer_spec(digest@, signature@) == Err::<Seq<u8>, &'static str>(e),
        },
{
    if signature.len() != SIGNATURE_BS {
        return Err("malformed signature length");
    }
    let rs = &signature[0..64];
    assert(rs@ =~= signature@.take(64));
    if k256_signature_from_slice(rs).is_err() {
        return Err("malformed signature");
    }
    let v = signature[64];
    let rec = if v >= 27 { v - 27 } else { v };
    if k256_recovery_id_try_from(rec).is_err() {
        return Err("invalid recovery id");
    }
    match k256_recover_from_prehash(digest, rs, rec) {
        Ok(key) => Ok(address_from_key(key.as_slice())),
        Err(_) => Err("invalid signature"),
    }
}

/// The last byte `v` of a 65-byte signature carries the recovery id raw (0
/// to 3) or offset by 27 as Ethereum writes it (27 to 30); any other `v`
/// is refused. With the raw id `v`, the signer is the address of the key
/// that recovery with id `v` gives (the last 20 bytes of the Keccak-256 of
/// its uncompressed encoding without the tag byte), and writing `v + 27`
/// in its place recovers the same signer.
pub proof fn law_recovery_id_from_last_byte(digest: Seq<u8>, rs: Seq<u8>, v: u8)
    requires
        rs.len() == 64,
        k256_ecdsa_signature_ok(rs),
    ensures
        v <= 3 ==> recover_signer_spec(digest, rs.push(v)) == match k256_recovered_key(
            digest,
            rs,
            v,
        ) {
            Some(key) => Ok(keccak256_spec(key.skip(1)).subrange(12, 32)),
            None => Err("invalid signature"),
        },
        v <= 3 ==> recover_signer_spec(digest, rs.push((v + 27) as u8)) == recover_signer_spec(
            digest,
            rs.push(v),
        ),
        (4 <= v < 27 || v > 30) ==> recover_signer_spec(digest, rs.push(v)) == Err::<
            Seq<u8>,
            &'static str,
        >("invalid recovery id"),
{
    assert(rs.push(v).take(64) =~= rs);
    assert(rs.push((v + 27) as u8).take(64) =~= rs);
}

} // verus!
