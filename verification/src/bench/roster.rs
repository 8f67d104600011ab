//! The authorised signer roster: every signer a gateway reports for a feed.

use vstd::prelude::*;
use vstd::utf8::encode_utf8;
use crate::redstone::serialize::GatewayPackage;
use crate::redstone::verify::contains_address;

verus! {

/// The value of a hex digit (either case), or `None`.
pub open spec fn hex_digit(c: u8) -> Option<u8> {
    if 48 <= c <= 57 {
        Some((c - 48) as u8)
    } else if 97 <= c <= 102 {
        Some((c - 87) as u8)
    } else if 65 <= c <= 70 {
        Some((c - 55) as u8)
    } else {
        None
    }
}

/// The bytes a hex text stands for, two digits per byte, high digit first:
/// `None` for an odd length or a byte that is no hex digit.
pub open spec fn hex_decode_spec(text: Seq<u8>) -> Option<Seq<u8>> {
    if text.len() % 2 != 0 {
        None
    } else if exists|i: int| 0 <= i < text.len() && hex_digit(#[trigger] text[i]) is None {
        None
    } else {
        Some(
            Seq::new(
                text.len() / 2,
                |k: int|
                    ((hex_digit(text[2 * k])->Some_0 as nat) * 16 + (hex_digit(
                        text[2 * k + 1],
                    )->Some_0 as nat)) as u8,
            ),
        )
    }
}

/// `hex::decode(text)`. Claims what the crate documents and its source
/// shows: an even number of hex digits of either case decodes two digits
/// per byte, high digit first; anything else is an error.
#[verifier::external_body]
fn hex_decode(text: &[u8]) -> (r: Option<Vec<u8>>)
    ensures
        match r {
            Some(v) => hex_decode_spec(text@) == Some(v@),
            None => hex_decode_spec(text@) is None,
        },
{
    hex::decode(text).ok()
}

/// `s` with every leading `0x` removed.
pub open spec fn strip_hex_prefix(s: Seq<u8>) -> Seq<u8>
    decreases s.len(),
{
    if s.len() >= 2 && s[0] == 48 && s[1] == 120 {
        strip_hex_prefix(s.skip(2))
    } else {
        s
    }
}

/// The address a gateway reports for a package's signer, if it is 20 bytes
/// of hex (after any leading `0x`).
pub open spec fn reported_address(text: Seq<u8>) -> Option<Seq<u8>> {
    match hex_decode_spec(strip_hex_prefix(text)) {
        Some(b) => if b.len() == 20 {
            Some(b)
        } else {
            None
        },
        None => None,
    }
}

/// The distinct reported signer addresses of `pkgs[..n]`, in order of first
/// appearance.
pub open spec fn roster_spec(pkgs: Seq<GatewayPackage>, n: nat) -> Seq<Seq<u8>>
    decreases n,
{
    if n == 0 {
        Seq::empty()
    } else {
        let r = roster_spec(pkgs, (n - 1) as nat);
        let a = reported_address(encode_utf8(pkgs[n - 1].signer_address@))->Some_0;
        if r.contains(a) {
            r
        } else {
            r.push(a)
        }
    }
}

/// The offset at which `text` stops starting with `0x`.
fn hex_prefix_len(text: &[u8]) -> (n: usize)
    ensures
        n <= text@.len(),
        strip_hex_prefix(text@) == text@.skip(n as int),
{
    let mut n: usize = 0;
    assert(text@.skip(0) =~= text@);
    while text.len() - n >= 2 && text[n] == 48 && text[n + 1] == 120
        invariant
            n <= text@.len(),
            strip_hex_prefix(text@) == strip_hex_prefix(text@.skip(n as int)),
        decreases text@.len() - n,
    {
        assert(text@.skip(n as int).skip(2) =~= text@.skip(n + 2));
        n = n + 2;
    }
    n
}

/// The signer address a gateway reports for `pkg`, as 20 bytes.
fn signer_address(pkg: &GatewayPackage) -> (a: [u8; 20])
    requires
        reported_address(encode_utf8(pkg.signer_address@)) is Some,
    ensures
        Some(a@) == reported_address(encode_utf8(pkg.signer_address@)),
{
    let text = pkg.signer_address.as_str().as_bytes();
    let start = hex_prefix_len(text);
    let decoded = hex_decode(&text[start..text.len()]);
    assert(text@.subrange(start as int, text@.len() as int) =~= text@.skip(start as int));
    let bytes = match decoded {
        Some(b) => b,
        None => {
            return [0u8; 20];
        },
    };
    let mut addr = [0u8; 20];
    let mut k: usize = 0;
    while k < 20
        invariant
            k <= 20,
            bytes@.len() == 20,
            forall|t: int| 0 <= t < k ==> addr@[t] == bytes@[t],
        decreases 20 - k,
    {
        addr.set(k, bytes[k]);
        k = k + 1;
    }
    assert(addr@ =~= bytes@);
    addr
}

/// The full roster (N in M-of-N): every distinct signer address the gateway
/// reports for the feed, in order of first appearance. Each address is hex
/// text, optionally prefixed with `0x`, of 20 bytes.
pub fn authorized_roster(feed_packages: &Vec<GatewayPackage>) -> (roster: Vec<[u8; 20]>)
    requires
        forall|i: int|
            0 <= i < feed_packages@.len() ==> reported_address(encode_utf8(
                (#[trigger] feed_packages@[i]).signer_address@),
            ) is Some,
    ensures
        roster@.map_values(|x: [u8; 20]| x@) == roster_spec(feed_packages@, feed_packages@.len()),
{
    let mut roster: Vec<[u8; 20]> = Vec::new();
    let mut i: usize = 0;
    assert(roster@.map_values(|x: [u8; 20]| x@) =~= Seq::<Seq<u8>>::empty());
    while i < feed_packages.len()
        invariant
            i <= feed_packages@.len(),
            forall|k: int|
                0 <= k < feed_packages@.len() ==> reported_address(encode_utf8(
                    (#[trigger] feed_packages@[k]).signer_address@),
                ) is Some,
            roster@.map_values(|x: [u8; 20]| x@) == roster_spec(feed_packages@, i as nat),
        decreases feed_packages@.len() - i,
    {
        let addr = signer_address(&feed_packages[i]);
        if !contains_address(&roster, &addr) {
            let ghost before = roster@.map_values(|x: [u8; 20]| x@);
            roster.push(addr);
            assert(roster@.map_values(|x: [u8; 20]| x@) =~= before.push(addr@));
        }
        i = i + 1;
    }
    roster
}

/// The roster lists every reported signer, lists only reported signers, and
/// lists none twice.
pub proof fn law_roster_is_distinct_reported_signers(pkgs: Seq<GatewayPackage>, n: nat)
    requires
        n <= pkgs.len(),
        forall|i: int| 0 <= i < n ==> reported_address(encode_utf8((#[trigger] pkgs[i]).signer_address@)) is Some,
    ensures
        roster_spec(pkgs, n).no_duplicates(),
        forall|i: int|
            0 <= i < n ==> roster_spec(pkgs, n).contains(
                reported_address(encode_utf8((#[trigger] pkgs[i]).signer_address@))->Some_0,
            ),
        forall|a: Seq<u8>|
            roster_spec(pkgs, n).contains(a) ==> exists|i: int|
                0 <= i < n && reported_address(encode_utf8((#[trigger] pkgs[i]).signer_address@)) == Some(a),
    decreases n,
{
    if n > 0 {
        law_roster_is_distinct_reported_signers(pkgs, (n - 1) as nat);
        let r = roster_spec(pkgs, (n - 1) as nat);
        let a = reported_address(encode_utf8(pkgs[n - 1].signer_address@))->Some_0;
        let r2 = roster_spec(pkgs, n);
        assert forall|i: int| 0 <= i < n implies r2.contains(
            reported_address(encode_utf8((#[trigger] pkgs[i]).signer_address@))->Some_0,
        ) by {
            if i < n - 1 {
                let x = reported_address(encode_utf8(pkgs[i].signer_address@))->Some_0;
                assert(r.contains(x));
                if !r.contains(a) {
                    let j = choose|j: int| 0 <= j < r.len() && r[j] == x;
                    assert(r2[j] == x);
                }
            } else if !r.contains(a) {
                assert(r2[r.len() as int] == a);
            }
        }
        assert forall|x: Seq<u8>| r2.contains(x) implies exists|i: int|
            0 <= i < n && reported_address(encode_utf8((#[trigger] pkgs[i]).signer_address@)) == Some(x) by {
            if r.contains(x) {
            } else {
                let j = choose|j: int| 0 <= j < r2.len() && r2[j] == x;
                if j < r.len() {
                    assert(r[j] == x);
                }
                assert(x == a);
                assert(reported_address(encode_utf8(pkgs[n - 1].signer_address@)) == Some(x));
            }
        }
    }
}

} // verus!
