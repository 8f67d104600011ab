//! Standard-alphabet base64 decoding, lenient about padding.

use vstd::prelude::*;
use vstd::string::StringSliceAdditionalSpecFns;

verus! {

/// The 6-bit value of a base64 digit (`A-Z`, `a-z`, `0-9`, `+`, `/`), or
/// `None` for any other byte.
pub open spec fn base64_digit(b: u8) -> Option<u8> {
    if 65 <= b <= 90 {
        Some((b - 65) as u8)
    } else if 97 <= b <= 122 {
        Some((b - 71) as u8)
    } else if 48 <= b <= 57 {
        Some((b + 4) as u8)
    } else if b == 43 {
        Some(62u8)
    } else if b == 47 {
        Some(63u8)
    } else {
        None
    }
}

/// `s` without its `=` bytes (wherever they stand).
pub open spec fn strip_padding(s: Seq<u8>) -> Seq<u8>
    decreases s.len(),
{
    if s.len() == 0 {
        s
    } else if s.last() == 61 {
        strip_padding(s.drop_last())
    } else {
        strip_padding(s.drop_last()).push(s.last())
    }
}

/// The first byte of `chunk` that is no base64 digit.
pub open spec fn first_invalid(chunk: Seq<u8>) -> Option<u8>
    decreases chunk.len(),
{
    if chunk.len() == 0 {
        None
    } else if base64_digit(chunk[0]) is None {
        Some(chunk[0])
    } else {
        first_invalid(chunk.drop_first())
    }
}

/// The digits of `chunk` read as one base-64 number.
pub open spec fn sextets(chunk: Seq<u8>) -> nat
    decreases chunk.len(),
{
    if chunk.len() == 0 {
        0
    } else {
        sextets(chunk.drop_last()) * 64 + (base64_digit(chunk.last())->Some_0 as nat)
    }
}

/// The bytes a chunk of 2, 3 or 4 digits stands for: its bits, padded with
/// zero bits to 24, cut into bytes, of which the first `len - 1` count.
pub open spec fn chunk_bytes(chunk: Seq<u8>) -> Seq<u8> {
    let bits = sextets(chunk) * if chunk.len() == 2 {
        4096nat
    } else if chunk.len() == 3 {
        64nat
    } else {
        1nat
    };
    seq![(bits / 65536 % 256) as u8, (bits / 256 % 256) as u8, (bits % 256) as u8].take(
        chunk.len() - 1,
    )
}

/// A decimal digit.
pub open spec fn digit_char(d: nat) -> char {
    (48 + d) as char
}

/// `n` written in decimal.
pub open spec fn decimal(n: nat) -> Seq<char>
    decreases n,
{
    if n < 10 {
        seq![digit_char(n)]
    } else {
        decimal(n / 10).push(digit_char(n % 10))
    }
}

/// Decode padding-free base64 text, four digits at a time.
#[verifier::opaque]
pub open spec fn decode_digits(raw: Seq<u8>) -> Result<Seq<u8>, Seq<char>>
    decreases raw.len(),
{
    if raw.len() == 0 {
        Ok(Seq::empty())
    } else {
        let chunk = raw.take(if raw.len() < 4 { raw.len() as int } else { 4 });
        match first_invalid(chunk) {
            Some(b) => Err("invalid base64 byte "@ + decimal(b as nat)),
            None => if chunk.len() == 1 {
                Err("truncated base64"@)
            } else if raw.len() <= 4 {
                Ok(chunk_bytes(chunk))
            } else {
                match decode_digits(raw.skip(4)) {
                    Ok(rest) => Ok(chunk_bytes(chunk) + rest),
                    Err(e) => Err(e),
                }
            },
        }
    }
}

/// What decoding the base64 text `s` gives: its `=` bytes dropped, the
/// rest decoded in chunks of four digits.
pub open spec fn decode_base64_spec(s: Seq<u8>) -> Result<Seq<u8>, Seq<char>> {
    decode_digits(strip_padding(s))
}

/// The one-character text of a decimal digit.
fn digit_str(d: u8) -> (r: &'static str)
    requires
        d < 10,
    ensures
        r@ == seq![digit_char(d as nat)],
{
    proof {
        reveal_strlit("0");
        reveal_strlit("1");
        reveal_strlit("2");
        reveal_strlit("3");
        reveal_strlit("4");
        reveal_strlit("5");
        reveal_strlit("6");
        reveal_strlit("7");
        reveal_strlit("8");
        reveal_strlit("9");
    }
    match d {
        0 => "0",
        1 => "1",
        2 => "2",
        3 => "3",
        4 => "4",
        5 => "5",
        6 => "6",
        7 => "7",
        8 => "8",
        _ => "9",
    }
}

/// Append `n` in decimal to `s`.
fn push_decimal(s: &mut String, n: u8)
    ensures
        final(s)@ == old(s)@ + decimal(n as nat),
    decreases n,
{
    if n >= 10 {
        push_decimal(s, n / 10);
    }
    s.append(digit_str(n % 10));
    assert(decimal(n as nat) == if n < 10 {
        seq![digit_char(n as nat)]
    } else {
        decimal((n / 10) as nat).push(digit_char((n % 10) as nat))
    });
}

/// `prefix` put before a successful decoding; an error stays as it is.
pub open spec fn prepend_bytes(prefix: Seq<u8>, r: Result<Seq<u8>, Seq<char>>) -> Result<Seq<u8>, Seq<char>> {
    match r {
        Ok(rest) => Ok(prefix + rest),
        Err(e) => Err(e),
    }
}

/// One step of `decode_digits`: the first group of (at most) four digits
/// decides, then the rest follows.
proof fn lemma_decode_digits_step(rest: Seq<u8>, n: int)
    requires
        rest.len() > 0,
        n == if rest.len() < 4 {
            rest.len() as int
        } else {
            4
        },
    ensures
        decode_digits(rest) == match first_invalid(rest.take(n)) {
            Some(b) => Err("invalid base64 byte "@ + decimal(b as nat)),
            None => if n == 1 {
                Err("truncated base64"@)
            } else {
                prepend_bytes(
                    chunk_bytes(rest.take(n)),
                    if rest.len() <= 4 {
                        Ok(Seq::empty())
                    } else {
                        decode_digits(rest.skip(4))
                    },
                )
            },
        },
{
    reveal(decode_digits);
    if first_invalid(rest.take(n)) is None && n != 1 && rest.len() <= 4 {
        assert(chunk_bytes(rest.take(n)) + Seq::<u8>::empty() =~= chunk_bytes(rest.take(n)));
    }
}

proof fn lemma_decode_digits_empty()
    ensures
        decode_digits(Seq::<u8>::empty()) == Ok::<Seq<u8>, Seq<char>>(Seq::empty()),
{
    reveal(decode_digits);
}

proof fn lemma_prepend_twice(a: Seq<u8>, b: Seq<u8>, r: Result<Seq<u8>, Seq<char>>)
    ensures
        prepend_bytes(a, prepend_bytes(b, r)) == prepend_bytes(a + b, r),
{
    if let Ok(x) = r {
        assert(a + (b + x) =~= (a + b) + x);
    }
}

/// The 6-bit value of a base64 digit.
fn digit_value(b: u8) -> (r: Option<u8>)
    ensures
        r == base64_digit(b),
{
    if b >= 65 && b <= 90 {
        Some(b - 65)
    } else if b >= 97 && b <= 122 {
        Some(b - 71)
    } else if b >= 48 && b <= 57 {
        Some(b + 4)
    } else if b == 43 {
        Some(62)
    } else if b == 47 {
        Some(63)
    } else {
        None
    }
}

proof fn lemma_first_invalid(c: Seq<u8>, j: int)
    requires
        0 <= j <= c.len(),
        forall|t: int| 0 <= t < j ==> base64_digit(#[trigger] c[t]) is Some,
        j == c.len() || base64_digit(c[j]) is None,
    ensures
        first_invalid(c) == if j == c.len() {
            None::<u8>
        } else {
            Some(c[j])
        },
    decreases c.len(),
{
    if c.len() > 0 && j > 0 {
        let d = c.drop_first();
        assert forall|t: int| 0 <= t < j - 1 implies base64_digit(#[trigger] d[t]) is Some by {
            assert(d[t] == c[t + 1]);
        }
        lemma_first_invalid(d, j - 1);
    }
}

/// Read a group of at most four digits as one number, or find its first
/// byte that is no digit.
fn read_chunk(chunk: &[u8]) -> (r: Result<u32, u8>)
    requires
        chunk@.len() <= 4,
    ensures
        match r {
            Ok(acc) => first_invalid(chunk@) is None && acc as nat == sextets(chunk@) && acc < 0x40
                * 0x40 * 0x40 * 0x40 && (
            chunk@.len() <= 3 ==> acc < 0x40 * 0x40 * 0x40) && (chunk@.len() <= 2 ==> acc < 0x40
                * 0x40),
            Err(b) => first_invalid(chunk@) == Some(b),
        },
{
    let mut acc: u32 = 0;
    let mut k: usize = 0;
    while k < chunk.len()
        invariant
            k <= chunk@.len() <= 4,
            forall|t: int| 0 <= t < k ==> base64_digit(#[trigger] chunk@[t]) is Some,
            acc as nat == sextets(chunk@.take(k as int)),
            acc < 0x40 * 0x40 * 0x40 * 0x40,
            k <= 3 ==> acc < 0x40 * 0x40 * 0x40,
            k <= 2 ==> acc < 0x40 * 0x40,
            k <= 1 ==> acc < 0x40,
        decreases chunk@.len() - k,
    {
        let b = chunk[k];
        let v = match digit_value(b) {
            Some(v) => v,
            None => {
                proof {
                    lemma_first_invalid(chunk@, k as int);
                }
                return Err(b);
            },
        };
        proof {
            assert(chunk@.take(k + 1).drop_last() =~= chunk@.take(k as int));
            assert(v < 64);
        }
        let next: u32 = (acc << 6u32) | (v as u32);
        assert(next == acc * 64 + v) by (bit_vector)
            requires
                acc < 0x40 * 0x40 * 0x40,
                v < 64,
                next == (acc << 6u32) | (v as u32),
        ;
        acc = next;
        k = k + 1;
    }
    proof {
        lemma_first_invalid(chunk@, chunk@.len() as int);
        assert(chunk@.take(chunk@.len() as int) =~= chunk@);
    }
    Ok(acc)
}

/// Append the bytes a group of two to four digits stands for.
fn push_chunk_bytes(out: &mut Vec<u8>, chunk: &[u8], acc: u32)
    requires
        2 <= chunk@.len() <= 4,
        acc as nat == sextets(chunk@),
        chunk@.len() <= 3 ==> acc < 0x40 * 0x40 * 0x40,
        chunk@.len() <= 2 ==> acc < 0x40 * 0x40,
        acc < 0x40 * 0x40 * 0x40 * 0x40,
    ensures
        final(out)@ == old(out)@ + chunk_bytes(chunk@),
{
    let len = chunk.len();
    if len == 4 {
        assert((acc >> 16u32) as u8 == (acc / 65536 % 256) as u8 && (acc >> 8u32) as u8 == (acc
            / 256 % 256) as u8 && acc as u8 == (acc % 256) as u8) by (bit_vector);
        out.push((acc >> 16u32) as u8);
        out.push((acc >> 8u32) as u8);
        out.push(acc as u8);
    } else if len == 3 {
        let bits: u32 = acc << 6u32;
        assert(bits == acc * 64) by (bit_vector)
            requires
                acc < 0x40 * 0x40 * 0x40,
                bits == acc << 6u32,
        ;
        assert((bits >> 16u32) as u8 == (bits / 65536 % 256) as u8 && (bits >> 8u32) as u8 == (bits
            / 256 % 256) as u8) by (bit_vector);
        out.push((bits >> 16u32) as u8);
        out.push((bits >> 8u32) as u8);
    } else {
        let bits: u32 = acc << 12u32;
        assert(bits == acc * 4096) by (bit_vector)
            requires
                acc < 0x40 * 0x40,
                bits == acc << 12u32,
        ;
        assert((bits >> 16u32) as u8 == (bits / 65536 % 256) as u8) by (bit_vector);
        out.push((bits >> 16u32) as u8);
    }
    assert(final(out)@ =~= old(out)@ + chunk_bytes(chunk@));
}

/// Decode base64 text: drop every `=`, then decode four digits at a time; a
/// final group of two or three digits gives one or two bytes. A byte that is
/// no base64 digit, or a final group of a single digit, is an error.
pub fn decode_base64(s: &str) -> (r: Result<Vec<u8>, String>)
    ensures
        match r {
            Ok(v) => decode_base64_spec(s.spec_bytes()) == Ok::<Seq<u8>, Seq<char>>(v@),
            Err(e) => decode_base64_spec(s.spec_bytes()) == Err::<Seq<u8>, Seq<char>>(e@),
        },
{
    let bytes = s.as_bytes();
    let mut raw: Vec<u8> = Vec::new();
    let mut i: usize = 0;
    while i < bytes.len()
        invariant
            i <= bytes@.len(),
            raw@ == strip_padding(bytes@.take(i as int)),
        decreases bytes@.len() - i,
    {
        assert(bytes@.take(i + 1).drop_last() =~= bytes@.take(i as int));
        if bytes[i] != 61 {
            raw.push(bytes[i]);
        }
        i = i + 1;
    }
    assert(bytes@.take(bytes@.len() as int) =~= bytes@);
    let ghost all = raw@;
    let mut out: Vec<u8> = Vec::new();
    let mut i: usize = 0;
    assert(all.skip(0) =~= all);
    while i < raw.len()
        invariant
            i <= raw@.len(),
            raw@ == all,
            decode_digits(all) == decode_base64_spec(s.spec_bytes()),
            decode_digits(all) == prepend_bytes(out@, decode_digits(all.skip(i as int))),
        decreases raw@.len() - i,
    {
        let remaining = raw.len() - i;
        let end = if remaining < 4 { raw.len() } else { i + 4 };
        let chunk = &raw.as_slice()[i..end];
        let ghost rest = all.skip(i as int);
        let ghost n: int = if remaining < 4 { remaining as int } else { 4 };
        assert(chunk@ =~= rest.take(n));
        proof {
            lemma_decode_digits_step(rest, n);
        }
        let acc = match read_chunk(chunk) {
            Ok(acc) => acc,
            Err(b) => {
                let mut msg = String::from_str("invalid base64 byte ");
                push_decimal(&mut msg, b);
                return Err(msg);
            },
        };
        if chunk.len() < 2 {
            return Err(String::from_str("truncated base64"));
        }
        let ghost before = out@;
        push_chunk_bytes(&mut out, chunk, acc);
        proof {
            if remaining > 4 {
                assert(rest.skip(4) =~= all.skip(end as int));
            } else {
                assert(all.skip(end as int) =~= Seq::<u8>::empty());
                lemma_decode_digits_empty();
            }
            lemma_prepend_twice(before, chunk_bytes(chunk@), decode_digits(all.skip(end as int)));
        }
        i = end;
    }
    assert(all.skip(raw@.len() as int) =~= Seq::<u8>::empty());
    proof {
        lemma_decode_digits_empty();
        assert(out@ + Seq::<u8>::empty() =~= out@);
    }
    Ok(out)
}

proof fn lemma_decode_digits_length(raw: Seq<u8>)
    ensures
        decode_digits(raw) matches Ok(v) ==> v.len() == 3 * raw.len() / 4 && raw.len() % 4 != 1,
    decreases raw.len(),
{
    if raw.len() == 0 {
        lemma_decode_digits_empty();
        assert(raw =~= Seq::<u8>::empty());
    } else {
        let n: int = if raw.len() < 4 { raw.len() as int } else { 4 };
        lemma_decode_digits_step(raw, n);
        let chunk = raw.take(n);
        if raw.len() > 4 {
            lemma_decode_digits_length(raw.skip(4));
        }
        if let Ok(v) = decode_digits(raw) {
            assert(chunk_bytes(chunk).len() == n - 1);
            if raw.len() <= 4 {
                assert(v =~= chunk_bytes(chunk));
            } else {
                assert(decode_digits(raw.skip(4)) is Ok);
                assert((raw.len() - 4) % 4 == raw.len() % 4);
                assert(3 + 3 * (raw.len() - 4) / 4 == 3 * raw.len() / 4);
            }
        }
    }
}

/// Three bytes for every four digits: base64 text with `k` digits (once its
/// `=` bytes are dropped) decodes, when it decodes at all, to `3k/4` bytes
/// rounded down, and never when `k` leaves a remainder of 1 modulo 4.
pub proof fn law_decoded_length(s: Seq<u8>)
    ensures
        decode_base64_spec(s) matches Ok(v) ==> v.len() == 3 * strip_padding(s).len() / 4
            && strip_padding(s).len() % 4 != 1,
{
    lemma_decode_digits_length(strip_padding(s));
}

/// The base64 digit for a 6-bit value `v` (standard alphabet).
pub open spec fn digit_byte(v: int) -> u8 {
    if v < 26 {
        (v + 65) as u8
    } else if v < 52 {
        (v + 71) as u8
    } else if v < 62 {
        (v - 4) as u8
    } else if v == 62 {
        43u8
    } else {
        47u8
    }
}

/// The digits of a group of one to three bytes: its 24 bits (missing bytes
/// taken as zero) cut into four 6-bit values, of which the first
/// `len + 1` are written.
pub open spec fn group_digits(g: Seq<u8>) -> Seq<u8> {
    let b0 = g[0] as int;
    let b1 = if g.len() > 1 { g[1] as int } else { 0 };
    let b2 = if g.len() > 2 { g[2] as int } else { 0 };
    seq![
        digit_byte(b0 / 4),
        digit_byte((b0 % 4) * 16 + b1 / 16),
        digit_byte((b1 % 16) * 4 + b2 / 64),
        digit_byte(b2 % 64),
    ].take(g.len() + 1 as int)
}

/// `n` padding bytes `=`.
pub open spec fn padding(n: nat) -> Seq<u8> {
    Seq::new(n, |_i: int| 61u8)
}

/// Standard base64 encoding of `b`, three bytes to four digits; with
/// `padded`, a shorter last group is filled up to four characters with `=`.
pub open spec fn encode_base64_spec(b: Seq<u8>, padded: bool) -> Seq<u8>
    decreases b.len(),
{
    if b.len() == 0 {
        Seq::empty()
    } else if b.len() <= 3 {
        if padded {
            group_digits(b) + padding((3 - b.len()) as nat)
        } else {
            group_digits(b)
        }
    } else {
        group_digits(b.take(3)) + encode_base64_spec(b.skip(3), padded)
    }
}

proof fn lemma_digit_byte(v: int)
    requires
        0 <= v < 64,
    ensures
        base64_digit(digit_byte(v)) == Some(v as u8),
        digit_byte(v) != 61,
{
}

proof fn lemma_strip_concat(a: Seq<u8>, b: Seq<u8>)
    ensures
        strip_padding(a + b) == strip_padding(a) + strip_padding(b),
    decreases b.len(),
{
    if b.len() == 0 {
        assert(a + b =~= a);
        assert(strip_padding(a) + strip_padding(b) =~= strip_padding(a));
    } else {
        assert((a + b).drop_last() =~= a + b.drop_last());
        assert((a + b).last() == b.last());
        lemma_strip_concat(a, b.drop_last());
        if b.last() != 61 {
            assert(strip_padding(a) + strip_padding(b.drop_last()).push(b.last()) =~= (strip_padding(a)
                + strip_padding(b.drop_last())).push(b.last()));
        }
    }
}

proof fn lemma_strip_padding_only(n: nat)
    ensures
        strip_padding(padding(n)) =~= Seq::<u8>::empty(),
    decreases n,
{
    if n > 0 {
        assert(padding(n).drop_last() =~= padding((n - 1) as nat));
        lemma_strip_padding_only((n - 1) as nat);
    }
}

proof fn lemma_strip_no_padding(d: Seq<u8>)
    requires
        forall|i: int| 0 <= i < d.len() ==> d[i] != 61,
    ensures
        strip_padding(d) == d,
    decreases d.len(),
{
    if d.len() > 0 {
        lemma_strip_no_padding(d.drop_last());
        assert(strip_padding(d.drop_last()).push(d.last()) =~= d);
    }
}

/// The digits of a group are base64 digits, two to four of them.
proof fn lemma_group_digits_valid(g: Seq<u8>)
    requires
        1 <= g.len() <= 3,
    ensures
        group_digits(g).len() == g.len() + 1,
        forall|i: int| 0 <= i < group_digits(g).len() ==> #[trigger] group_digits(g)[i] != 61
            && base64_digit(group_digits(g)[i]) is Some,
        first_invalid(group_digits(g)) is None,
{
    let b0 = g[0] as int;
    let b1 = if g.len() > 1 { g[1] as int } else { 0 };
    let b2 = if g.len() > 2 { g[2] as int } else { 0 };
    lemma_digit_byte(b0 / 4);
    lemma_digit_byte((b0 % 4) * 16 + b1 / 16);
    lemma_digit_byte((b1 % 16) * 4 + b2 / 64);
    lemma_digit_byte(b2 % 64);
    lemma_first_invalid_none(group_digits(g));
}

proof fn lemma_first_invalid_none(d: Seq<u8>)
    requires
        forall|i: int| 0 <= i < d.len() ==> base64_digit(#[trigger] d[i]) is Some,
    ensures
        first_invalid(d) is None,
    decreases d.len(),
{
    if d.len() > 0 {
        assert forall|i: int| 0 <= i < d.drop_first().len() implies base64_digit(
            #[trigger] d.drop_first()[i],
        ) is Some by {
            assert(d.drop_first()[i] == d[i + 1]);
        }
        lemma_first_invalid_none(d.drop_first());
    }
}

proof fn lemma_sextets_push(s: Seq<u8>, x: u8)
    ensures
        sextets(s.push(x)) == sextets(s) * 64 + (base64_digit(x)->Some_0 as nat),
{
    assert(s.push(x).drop_last() =~= s);
}

/// The bits of three bytes, cut into four 6-bit values and put together
/// again, and cut into bytes again.
proof fn lemma_group_bits(b0: int, b1: int, b2: int)
    requires
        0 <= b0 < 256,
        0 <= b1 < 256,
        0 <= b2 < 256,
    ensures
        ({
            let n = b0 * 65536 + b1 * 256 + b2;
            &&& (b0 / 4) * 262144 + ((b0 % 4) * 16 + b1 / 16) * 4096 + ((b1 % 16) * 4 + b2 / 64)
                * 64 + b2 % 64 == n
            &&& n / 65536 % 256 == b0
            &&& n / 256 % 256 == b1
            &&& n % 256 == b2
        }),
{
    let n = b0 * 65536 + b1 * 256 + b2;
    assert(n / 65536 == b0) by (nonlinear_arith)
        requires
            n == b0 * 65536 + b1 * 256 + b2,
            0 <= b1 * 256 + b2 < 65536,
    ;
    assert(n / 256 == b0 * 256 + b1) by (nonlinear_arith)
        requires
            n == b0 * 65536 + b1 * 256 + b2,
            0 <= b2 < 256,
    ;
    assert((b0 * 256 + b1) % 256 == b1) by (nonlinear_arith)
        requires
            0 <= b1 < 256,
            0 <= b0,
    ;
    assert(n % 256 == b2) by (nonlinear_arith)
        requires
            n == (b0 * 256 + b1) * 256 + b2,
            0 <= b2 < 256,
            0 <= b0,
            0 <= b1,
    ;
}

/// A group's digits decode back to the group.
proof fn lemma_group_round_trip(g: Seq<u8>)
    requires
        1 <= g.len() <= 3,
    ensures
        chunk_bytes(group_digits(g)) == g,
{
    let b0 = g[0] as int;
    let b1 = if g.len() > 1 { g[1] as int } else { 0 };
    let b2 = if g.len() > 2 { g[2] as int } else { 0 };
    let v0 = b0 / 4;
    let v1 = (b0 % 4) * 16 + b1 / 16;
    let v2 = (b1 % 16) * 4 + b2 / 64;
    let v3 = b2 % 64;
    lemma_digit_byte(v0);
    lemma_digit_byte(v1);
    lemma_digit_byte(v2);
    lemma_digit_byte(v3);
    lemma_group_bits(b0, b1, b2);
    let n = b0 * 65536 + b1 * 256 + b2;
    let s0 = Seq::<u8>::empty();
    let s1 = s0.push(digit_byte(v0));
    let s2 = s1.push(digit_byte(v1));
    let s3 = s2.push(digit_byte(v2));
    let s4 = s3.push(digit_byte(v3));
    assert(sextets(s0) == 0);
    lemma_sextets_push(s0, digit_byte(v0));
    lemma_sextets_push(s1, digit_byte(v1));
    lemma_sextets_push(s2, digit_byte(v2));
    lemma_sextets_push(s3, digit_byte(v3));
    let d = group_digits(g);
    if g.len() == 1 {
        assert(d =~= s2);
        assert(sextets(d) * 4096 == n);
        assert(chunk_bytes(d) =~= g);
    } else if g.len() == 2 {
        assert(d =~= s3);
        assert(sextets(d) * 64 == n);
        assert(chunk_bytes(d) =~= g);
    } else {
        assert(d =~= s4);
        assert(sextets(d) == n);
        assert(chunk_bytes(d) =~= g);
    }
}

proof fn lemma_strip_encoding(b: Seq<u8>)
    ensures
        strip_padding(encode_base64_spec(b, true)) == encode_base64_spec(b, false),
    decreases b.len(),
{
    if b.len() == 0 {
    } else if b.len() <= 3 {
        lemma_group_digits_valid(b);
        lemma_strip_concat(group_digits(b), padding((3 - b.len()) as nat));
        lemma_strip_padding_only((3 - b.len()) as nat);
        lemma_strip_no_padding(group_digits(b));
        assert(group_digits(b) + Seq::<u8>::empty() =~= group_digits(b));
    } else {
        lemma_group_digits_valid(b.take(3));
        lemma_strip_concat(group_digits(b.take(3)), encode_base64_spec(b.skip(3), true));
        lemma_strip_no_padding(group_digits(b.take(3)));
        lemma_strip_encoding(b.skip(3));
    }
}

proof fn lemma_decode_last_chunk(raw: Seq<u8>)
    requires
        2 <= raw.len() <= 4,
        first_invalid(raw) is None,
    ensures
        decode_digits(raw) == Ok::<Seq<u8>, Seq<char>>(chunk_bytes(raw)),
{
    reveal(decode_digits);
    assert(raw.take(raw.len() as int) =~= raw);
}

proof fn lemma_decode_chunk_then_rest(g: Seq<u8>, rest: Seq<u8>, r: Seq<u8>)
    requires
        g.len() == 4,
        first_invalid(g) is None,
        rest.len() >= 1,
        decode_digits(rest) == Ok::<Seq<u8>, Seq<char>>(r),
    ensures
        decode_digits(g + rest) == Ok::<Seq<u8>, Seq<char>>(chunk_bytes(g) + r),
{
    reveal(decode_digits);
    let raw = g + rest;
    assert(raw.take(4) =~= g);
    assert(raw.skip(4) =~= rest);
}

proof fn lemma_decode_encoding(b: Seq<u8>)
    ensures
        decode_digits(encode_base64_spec(b, false)) == Ok::<Seq<u8>, Seq<char>>(b),
    decreases b.len(),
{
    if b.len() == 0 {
        reveal(decode_digits);
        assert(b =~= Seq::<u8>::empty());
    } else if b.len() <= 3 {
        lemma_group_digits_valid(b);
        lemma_group_round_trip(b);
        lemma_decode_last_chunk(group_digits(b));
    } else {
        lemma_group_digits_valid(b.take(3));
        lemma_group_round_trip(b.take(3));
        lemma_decode_encoding(b.skip(3));
        lemma_encoding_nonempty(b.skip(3));
        lemma_decode_chunk_then_rest(
            group_digits(b.take(3)),
            encode_base64_spec(b.skip(3), false),
            b.skip(3),
        );
        assert(b.take(3) + b.skip(3) =~= b);
    }
}

proof fn lemma_encoding_nonempty(b: Seq<u8>)
    requires
        b.len() > 0,
    ensures
        encode_base64_spec(b, false).len() >= 1,
{
    if b.len() <= 3 {
        lemma_group_digits_valid(b);
    } else {
        lemma_group_digits_valid(b.take(3));
    }
}

/// Decoding undoes standard base64 encoding, padded with `=` or not.
pub proof fn law_decode_undoes_encode(b: Seq<u8>, padded: bool)
    ensures
        decode_base64_spec(encode_base64_spec(b, padded)) == Ok::<Seq<u8>, Seq<char>>(b),
{
    lemma_strip_encoding(b);
    lemma_decode_encoding(b);
    if !padded {
        lemma_strip_no_padding_encoding(b);
    }
}

proof fn lemma_strip_no_padding_encoding(b: Seq<u8>)
    ensures
        strip_padding(encode_base64_spec(b, false)) == encode_base64_spec(b, false),
    decreases b.len(),
{
    if b.len() == 0 {
    } else if b.len() <= 3 {
        lemma_group_digits_valid(b);
        lemma_strip_no_padding(group_digits(b));
    } else {
        lemma_group_digits_valid(b.take(3));
        lemma_strip_concat(group_digits(b.take(3)), encode_base64_spec(b.skip(3), false));
        lemma_strip_no_padding(group_digits(b.take(3)));
        lemma_strip_no_padding_encoding(b.skip(3));
    }
}

proof fn lemma_decode_digits_concat(s1: Seq<u8>, s2: Seq<u8>, a: Seq<u8>, b: Seq<u8>)
    requires
        s1.len() % 4 == 0,
        s2.len() > 0,
        decode_digits(s1) == Ok::<Seq<u8>, Seq<char>>(a),
        decode_digits(s2) == Ok::<Seq<u8>, Seq<char>>(b),
    ensures
        decode_digits(s1 + s2) == Ok::<Seq<u8>, Seq<char>>(a + b),
    decreases s1.len(),
{
    reveal(decode_digits);
    if s1.len() == 0 {
        assert(s1 + s2 =~= s2);
        assert(a =~= Seq::<u8>::empty());
        assert(a + b =~= b);
    } else {
        let chunk = s1.take(4);
        let joined = s1 + s2;
        assert(joined.take(4) =~= chunk);
        if s1.len() == 4 {
            assert(joined.skip(4) =~= s2);
            assert(a == chunk_bytes(chunk));
        } else {
            let rest = decode_digits(s1.skip(4))->Ok_0;
            lemma_decode_digits_concat(s1.skip(4), s2, rest, b);
            assert(joined.skip(4) =~= s1.skip(4) + s2);
            assert(a == chunk_bytes(chunk) + rest);
            assert(chunk_bytes(chunk) + (rest + b) =~= a + b);
        }
    }
}

/// Decoding runs four digits at a time: base64 text without `=` whose
/// length is a multiple of four, followed by more text without `=`,
/// decodes to what the two decode to, one after the other.
pub proof fn law_decode_concatenates(s1: Seq<u8>, s2: Seq<u8>, a: Seq<u8>, b: Seq<u8>)
    requires
        forall|i: int| 0 <= i < s1.len() ==> s1[i] != 61,
        forall|i: int| 0 <= i < s2.len() ==> s2[i] != 61,
        s1.len() % 4 == 0,
        decode_base64_spec(s1) == Ok::<Seq<u8>, Seq<char>>(a),
        decode_base64_spec(s2) == Ok::<Seq<u8>, Seq<char>>(b),
    ensures
        decode_base64_spec(s1 + s2) == Ok::<Seq<u8>, Seq<char>>(a + b),
{
    lemma_strip_no_padding(s1);
    lemma_strip_no_padding(s2);
    assert forall|i: int| 0 <= i < (s1 + s2).len() implies (s1 + s2)[i] != 61 by {
        if i >= s1.len() {
            assert((s1 + s2)[i] == s2[i - s1.len()]);
        }
    }
    lemma_strip_no_padding(s1 + s2);
    if s2.len() == 0 {
        reveal(decode_digits);
        assert(s1 + s2 =~= s1);
        assert(b =~= Seq::<u8>::empty());
        assert(a + b =~= a);
    } else {
        lemma_decode_digits_concat(s1, s2, a, b);
    }
}

} // verus!
