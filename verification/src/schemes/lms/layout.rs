//! The byte layout that `hbs_lms` reads an HSS signature and an HSS public
//! key in (SHA-256 with 32-byte outputs), and how far its parsers get
//! through given bytes: to the end of a field, to a refusal, or to a panic
//! on a slice that runs past the end or an unknown type that it unwraps.
//!
//! Positions are absolute offsets into the whole byte string; the parsers
//! read sub-slices that start at those offsets.

use vstd::prelude::*;

verus! {

/// How a parser ends on its bytes.
#[derive(Clone, Copy, Debug, PartialEq, Eq)]
pub enum ParseEnd {
    /// It panics.
    Panics,
    /// It gives up without panicking.
    Rejected,
    /// It reads a whole field that ends at this offset.
    Read(usize),
}

/// The big-endian `u32` at offset `at`.
pub open spec fn be32(s: Seq<u8>, at: int) -> int {
    s[at] as int * 0x1000000 + s[at + 1] as int * 0x10000 + s[at + 2] as int * 0x100 + s[at
        + 3] as int
}

/// Hash chains of an LM-OTS type (W1, W2, W4, W8 over 32-byte hashes); 0 for
/// a type that the crate does not know.
pub open spec fn lmots_chains(t: int) -> int {
    if t == 1 {
        265
    } else if t == 2 {
        133
    } else if t == 3 {
        67
    } else if t == 4 {
        34
    } else {
        0
    }
}

/// Tree height of an LMS type (H5 to H25); 0 for a type that the crate does
/// not know.
pub open spec fn lms_height(t: int) -> int {
    if t == 5 {
        5
    } else if t == 6 {
        10
    } else if t == 7 {
        15
    } else if t == 8 {
        20
    } else if t == 9 {
        25
    } else {
        0
    }
}

/// Leaves of a tree of height `h`, `2^h`, for the heights that `lms_height`
/// gives.
pub open spec fn tree_leaves(h: int) -> int {
    if h == 5 {
        32
    } else if h == 10 {
        1024
    } else if h == 15 {
        32768
    } else if h == 20 {
        1048576
    } else {
        33554432
    }
}

/// An LMS signature at `at`: leaf index `q` (4 bytes), LM-OTS type (4),
/// randomizer (32), one 32-byte value per hash chain, LMS type (4), and a
/// 32-byte node per level of the tree. Both types must be known, or the
/// parser unwraps `None`; a leaf index outside the tree is refused.
pub open spec fn lms_signature_end(s: Seq<u8>, at: int) -> ParseEnd {
    if s.len() < at + 8 {
        ParseEnd::Panics
    } else if lmots_chains(be32(s, at + 4)) == 0 {
        ParseEnd::Panics
    } else {
        let ots_end = at + 8 + 32 * (1 + lmots_chains(be32(s, at + 4)));
        if s.len() < ots_end + 4 {
            ParseEnd::Panics
        } else if lms_height(be32(s, ots_end)) == 0 {
            ParseEnd::Panics
        } else if s.len() < ots_end + 4 + 32 * lms_height(be32(s, ots_end)) {
            ParseEnd::Panics
        } else if be32(s, at) >= tree_leaves(lms_height(be32(s, ots_end))) {
            ParseEnd::Rejected
        } else {
            ParseEnd::Read((ots_end + 4 + 32 * lms_height(be32(s, ots_end))) as usize)
        }
    }
}

/// An LMS public key at `at`: LMS type (4 bytes), LM-OTS type (4), tree
/// identifier (16) and root (32). An unknown type is refused.
pub open spec fn lms_key_end(s: Seq<u8>, at: int) -> ParseEnd {
    if s.len() < at + 4 {
        ParseEnd::Panics
    } else if lms_height(be32(s, at)) == 0 {
        ParseEnd::Rejected
    } else if s.len() < at + 8 {
        ParseEnd::Panics
    } else if lmots_chains(be32(s, at + 4)) == 0 {
        ParseEnd::Rejected
    } else if s.len() < at + 56 {
        ParseEnd::Panics
    } else {
        ParseEnd::Read((at + 56) as usize)
    }
}

/// A signed public key of an HSS signature at `at`: an LMS signature, then
/// the LMS public key that it signs.
pub open spec fn signed_key_end(s: Seq<u8>, at: int) -> ParseEnd {
    match lms_signature_end(s, at) {
        ParseEnd::Read(end) => lms_key_end(s, end as int),
        other => other,
    }
}

/// The signed public keys of an HSS signature from `at` on, `k` of `level`
/// read so far. The crate keeps at most 7 of them (one fewer than its limit
/// of 8 levels): reading an eighth panics.
pub open spec fn signed_keys_end(s: Seq<u8>, at: int, k: int, level: int) -> ParseEnd
    decreases level - k,
{
    if k >= level {
        ParseEnd::Read(at as usize)
    } else {
        match signed_key_end(s, at) {
            ParseEnd::Read(end) => if k >= 7 {
                ParseEnd::Panics
            } else {
                signed_keys_end(s, end as int, k + 1, level)
            },
            other => other,
        }
    }
}

/// An HSS signature: its level count (4 bytes), that many signed public
/// keys, then the LMS signature of the message.
pub open spec fn hss_signature_end(s: Seq<u8>) -> ParseEnd {
    if s.len() < 4 {
        ParseEnd::Panics
    } else {
        match signed_keys_end(s, 4, 0, be32(s, 0)) {
            ParseEnd::Read(end) => lms_signature_end(s, end as int),
            other => other,
        }
    }
}

/// An HSS public key: its level count (4 bytes), then the top LMS public
/// key.
pub open spec fn hss_key_end(s: Seq<u8>) -> ParseEnd {
    if s.len() < 4 {
        ParseEnd::Panics
    } else {
        lms_key_end(s, 4)
    }
}

/// Whether `hbs_lms::verify` reads `sig` and `pubkey` without panicking. It
/// parses the signature first and gives up when the signature is refused;
/// else it parses the public key. Once both are parsed the check itself
/// does not panic.
pub open spec fn lms_parses_safely(sig: Seq<u8>, pubkey: Seq<u8>) -> bool {
    &&& !(hss_signature_end(sig) is Panics)
    &&& hss_signature_end(sig) is Rejected || !(hss_key_end(pubkey) is Panics)
}

/// The big-endian `u32` at offset `at`.
fn read_be32(data: &[u8], at: usize) -> (r: u32)
    requires
        at + 4 <= data@.len(),
    ensures
        r as int == be32(data@, at as int),
{
    (data[at] as u32) * 0x1000000 + (data[at + 1] as u32) * 0x10000 + (data[at + 2] as u32) * 0x100
        + (data[at + 3] as u32)
}

fn lmots_chain_count(t: u32) -> (r: usize)
    ensures
        r as int == lmots_chains(t as int),
{
    match t {
        1 => 265,
        2 => 133,
        3 => 67,
        4 => 34,
        _ => 0,
    }
}

fn lms_tree_height(t: u32) -> (r: usize)
    ensures
        r as int == lms_height(t as int),
{
    match t {
        5 => 5,
        6 => 10,
        7 => 15,
        8 => 20,
        9 => 25,
        _ => 0,
    }
}

fn leaves_of(h: usize) -> (r: u32)
    ensures
        r as int == tree_leaves(h as int),
{
    if h == 5 {
        32
    } else if h == 10 {
        1024
    } else if h == 15 {
        32768
    } else if h == 20 {
        1048576
    } else {
        33554432
    }
}

/// How the LMS signature parser ends at `at`.
pub fn lms_signature_end_at(data: &[u8], at: usize) -> (r: ParseEnd)
    requires
        at <= data@.len(),
    ensures
        r == lms_signature_end(data@, at as int),
        r matches ParseEnd::Read(end) ==> at <= end <= data@.len(),
{
    let rem = data.len() - at;
    if rem < 8 {
        return ParseEnd::Panics;
    }
    let p = lmots_chain_count(read_be32(data, at + 4));
    if p == 0 {
        return ParseEnd::Panics;
    }
    let ots_len = 8 + 32 * (1 + p);
    if rem < ots_len + 4 {
        return ParseEnd::Panics;
    }
    let ots_end = at + ots_len;
    let h = lms_tree_height(read_be32(data, ots_end));
    if h == 0 {
        return ParseEnd::Panics;
    }
    if rem - ots_len - 4 < 32 * h {
        return ParseEnd::Panics;
    }
    if read_be32(data, at) >= leaves_of(h) {
        return ParseEnd::Rejected;
    }
    ParseEnd::Read(ots_end + 4 + 32 * h)
}

/// How the LMS public key parser ends at `at`.
pub fn lms_key_end_at(data: &[u8], at: usize) -> (r: ParseEnd)
    requires
        at <= data@.len(),
    ensures
        r == lms_key_end(data@, at as int),
        r matches ParseEnd::Read(end) ==> at <= end <= data@.len(),
{
    let rem = data.len() - at;
    if rem < 4 {
        ParseEnd::Panics
    } else if lms_tree_height(read_be32(data, at)) == 0 {
        ParseEnd::Rejected
    } else if rem < 8 {
        ParseEnd::Panics
    } else if lmots_chain_count(read_be32(data, at + 4)) == 0 {
        ParseEnd::Rejected
    } else if rem < 56 {
        ParseEnd::Panics
    } else {
        ParseEnd::Read(at + 56)
    }
}

/// How the parser of a signed public key ends at `at`.
fn signed_key_end_at(data: &[u8], at: usize) -> (r: ParseEnd)
    requires
        at <= data@.len(),
    ensures
        r == signed_key_end(data@, at as int),
        r matches ParseEnd::Read(end) ==> at <= end <= data@.len(),
{
    match lms_signature_end_at(data, at) {
        ParseEnd::Read(end) => lms_key_end_at(data, end),
        other => other,
    }
}

/// How the HSS signature parser ends on `sig`.
pub fn hss_signature_end_of(sig: &[u8]) -> (r: ParseEnd)
    ensures
        r == hss_signature_end(sig@),
{
    if sig.len() < 4 {
        return ParseEnd::Panics;
    }
    let level = read_be32(sig, 0);
    let mut at: usize = 4;
    let mut k: u32 = 0;
    while k < level
        invariant
            at <= sig@.len(),
            k <= level,
            level as int == be32(sig@, 0),
            signed_keys_end(sig@, 4, 0, level as int) == signed_keys_end(
                sig@,
                at as int,
                k as int,
                level as int,
            ),
        decreases level - k,
    {
        match signed_key_end_at(sig, at) {
            ParseEnd::Read(end) => {
                if k >= 7 {
                    return ParseEnd::Panics;
                }
                at = end;
                k = k + 1;
            },
            other => {
                return other;
            },
        }
    }
    lms_signature_end_at(sig, at)
}

/// How the HSS public key parser ends on `pubkey`.
pub fn hss_key_end_of(pubkey: &[u8]) -> (r: ParseEnd)
    ensures
        r == hss_key_end(pubkey@),
{
    if pubkey.len() < 4 {
        ParseEnd::Panics
    } else {
        lms_key_end_at(pubkey, 4)
    }
}

/// Whether `hbs_lms::verify` reads `sig` and `pubkey` without panicking.
pub fn parses_safely(sig: &[u8], pubkey: &[u8]) -> (r: bool)
    ensures
        r == lms_parses_safely(sig@, pubkey@),
{
    match hss_signature_end_of(sig) {
        ParseEnd::Panics => false,
        ParseEnd::Rejected => true,
        ParseEnd::Read(_) => !matches!(hss_key_end_of(pubkey), ParseEnd::Panics),
    }
}

} // verus!
