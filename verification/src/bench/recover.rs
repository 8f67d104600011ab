//! Host-side signer recovery, reporting why recovery failed.

use vstd::prelude::*;
use crate::digest::keccak256_spec;
use crate::redstone::signer::{
    address_from_key, address_of_key, k256_ecdsa_signature_ok, k256_recover_from_prehash,
    k256_recovered_key, k256_recovery_id_try_from, k256_signature_from_slice, recover_signer_spec,
    recovery_id_of,
};

verus! {

/// Which address signed the prehash `digest` given a signature whose first
/// 65 bytes are `r || s || v`, or the error text: the stage at which
/// recovery fails, the signature ("sig: "), the recovery id ("recid: ") or
/// the recovery itself ("recover: "), then the text of the underlying
/// `signature::Error`.
pub open spec fn recover_address_spec(digest: Seq<u8>, sig65: Seq<u8>) -> Result<Seq<u8>, Seq<char>> {
    if !k256_ecdsa_signature_ok(sig65.take(64)) {
        Err("sig: signature error"@)
    } else if recovery_id_of(sig65[64]) > 3 {
        Err("recid: signature error"@)
    } else {
        match k256_recovered_key(digest, sig65.take(64), recovery_id_of(sig65[64])) {
            Some(key) => Ok(address_of_key(key)),
            None => Err("recover: signature error"@),
        }
    }
}

/// `label` then `text`, as a new string.
fn labelled(label: &str, text: String) -> (r: String)
    ensures
        r@ == label@ + text@,
{
    let mut r = String::from_str(label);
    r.append(text.as_str());
    r
}

/// Recover the address that signed the prehash `digest` from the first 65
/// bytes of `sig65` (`r || s || v`), reporting the failing stage together
/// with the underlying error's text.
pub fn recover_address(digest: &[u8; 32], sig65: &[u8]) -> (r: Result<[u8; 20], String>)
    requires
        sig65@.len() >= 65,
    ensures
        match r {
            Ok(a) => recover_address_spec(digest@, sig65@) == Ok::<Seq<u8>, Seq<char>>(a@),
            Err(e) => recover_address_spec(digest@, sig65@) == Err::<Seq<u8>, Seq<char>>(e@),
        },
{
    let rs = &sig65[0..64];
    assert(rs@ =~= sig65@.take(64));
    if let Err(t) = k256_signature_from_slice(rs) {
        let e = labelled("sig: ", t);
        proof {
            reveal_strlit("sig: ");
            reveal_strlit("signature error");
            reveal_strlit("sig: signature error");
        }
        assert(e@ =~= "sig: signature error"@);
        return Err(e);
    }
    let v = sig65[64];
    let rec = if v >= 27 { v - 27 } else { v };
    if let Err(t) = k256_recovery_id_try_from(rec) {
        let e = labelled("recid: ", t);
        proof {
            reveal_strlit("recid: ");
            reveal_strlit("signature error");
            reveal_strlit("recid: signature error");
        }
        assert(e@ =~= "recid: signature error"@);
        return Err(e);
    }
    match k256_recover_from_prehash(digest, rs, rec) {
        Ok(key) => Ok(address_from_key(key.as_slice())),
        Err(t) => {
            let e = labelled("recover: ", t);
            proof {
                reveal_strlit("recover: ");
                reveal_strlit("signature error");
                reveal_strlit("recover: signature error");
            }
            assert(e@ =~= "recover: signature error"@);
            Err(e)
        },
    }
}

/// On a 65-byte signature, the host-side recovery and the verifier's
/// recovery agree: one recovers an address exactly when the other does, and
/// it is the same address.
pub proof fn law_recoveries_agree(digest: Seq<u8>, sig: Seq<u8>)
    requires
        sig.len() == 65,
    ensures
        recover_signer_spec(digest, sig) is Ok <==> recover_address_spec(digest, sig) is Ok,
        recover_signer_spec(digest, sig) matches Ok(a) ==> recover_address_spec(digest, sig)
            == Ok::<Seq<u8>, Seq<char>>(a),
{
}

/// The host-side recovery reads the last byte `v` of the signature as the
/// recovery id raw (0 to 3) or offset by 27 (27 to 30), and refuses any
/// other `v`. With the raw id `v`, the signer is the address of the key
/// that recovery with id `v` gives, and writing `v + 27` in its place
/// recovers the same signer.
pub proof fn law_host_recovery_id_from_last_byte(digest: Seq<u8>, rs: Seq<u8>, v: u8)
    requires
        rs.len() == 64,
        k256_ecdsa_signature_ok(rs),
    ensures
        v <= 3 ==> recover_address_spec(digest, rs.push(v)) == match k256_recovered_key(
            digest,
            rs,
            v,
        ) {
            Some(key) => Ok(keccak256_spec(key.skip(1)).subrange(12, 32)),
            None => Err("recover: signature error"@),
        },
        v <= 3 ==> recover_address_spec(digest, rs.push((v + 27) as u8)) == recover_address_spec(
            digest,
            rs.push(v),
        ),
        (4 <= v < 27 || v > 30) ==> recover_address_spec(digest, rs.push(v)) == Err::<
            Seq<u8>,
            Seq<char>,
        >("recid: signature error"@),
{
    assert(rs.push(v).take(64) =~= rs);
    assert(rs.push((v + 27) as u8).take(64) =~= rs);
}

} // verus!
