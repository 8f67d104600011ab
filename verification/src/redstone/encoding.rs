//! Big-endian integers as RedStone writes them.

use vstd::prelude::*;
use vstd::arithmetic::div_mod::{lemma_add_mod_noop, lemma_mul_mod_noop_left, lemma_small_mod};

verus! {

/// The unsigned integer that `s` denotes, most significant byte first.
pub open spec fn be_value(s: Seq<u8>) -> nat
    decreases s.len(),
{
    if s.len() == 0 {
        0
    } else {
        be_value(s.drop_last()) * 256 + (s.last() as nat)
    }
}

/// `256` to the power `n`.
pub open spec fn pow256(n: nat) -> nat
    decreases n,
{
    if n == 0 {
        1
    } else {
        256 * pow256((n - 1) as nat)
    }
}

/// A big-endian number of `n` bytes is below `256^n`.
pub proof fn lemma_be_value_bound(s: Seq<u8>)
    ensures
        be_value(s) < pow256(s.len()),
    decreases s.len(),
{
    if s.len() > 0 {
        lemma_be_value_bound(s.drop_last());
        assert(pow256(s.len()) == 256 * pow256((s.len() - 1) as nat));
    }
}

proof fn lemma_shift_in_mod(x: int, b: int, m: int)
    requires
        m > 0,
    ensures
        (((x % m) * 256 + b) % m) == ((x * 256 + b) % m),
{
    lemma_mul_mod_noop_left(x, 256, m);
    lemma_add_mod_noop((x % m) * 256, b, m);
    lemma_add_mod_noop(x * 256, b, m);
    lemma_mod_twice(b, m);
    lemma_mod_twice((x % m) * 256, m);
}

proof fn lemma_mod_twice(x: int, m: int)
    requires
        m > 0,
    ensures
        (x % m) % m == x % m,
{
    lemma_small_mod((x % m) as nat, m as nat);
}

/// The big-endian value of `bytes`, kept to its low 64 bits (bytes that do
/// not fit shift out at the top).
pub fn be_u64(bytes: &[u8]) -> (r: u64)
    ensures
        r as nat == be_value(bytes@) % 0x1_0000_0000_0000_0000,
{
    let mut acc: u64 = 0;
    let mut i: usize = 0;
    while i < bytes.len()
        invariant
            i <= bytes@.len(),
            acc as nat == be_value(bytes@.take(i as int)) % 0x1_0000_0000_0000_0000,
        decreases bytes@.len() - i,
    {
        let b: u8 = bytes[i];
        let next: u64 = (acc << 8) | (b as u64);
        proof {
            assert(next == ((acc as int) * 256 + (b as int)) % 0x1_0000_0000_0000_0000) by (bit_vector)
                requires
                    next == (acc << 8) | (b as u64),
            ;
            let t = bytes@.take(i as int);
            assert(bytes@.take(i + 1).drop_last() =~= t);
            lemma_shift_in_mod(be_value(t) as int, b as int, 0x1_0000_0000_0000_0000);
        }
        acc = next;
        i = i + 1;
    }
    assert(bytes@.take(bytes@.len() as int) =~= bytes@);
    acc
}

} // verus!
