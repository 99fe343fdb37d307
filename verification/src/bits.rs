//! Facts about single bits of `u64` words, proved with the bit-vector solver.

use vstd::prelude::*;
use vstd::std_specs::bits::{u64_trailing_zeros, axiom_u64_trailing_zeros};

verus! {

/// Whether bit `j` (counted from the least significant bit) of `w` is set.
pub open spec fn bit(w: u64, j: u64) -> bool {
    (w >> j) & 1u64 == 1u64
}

/// The bitwise operations, read one bit at a time.
pub proof fn lemma_bit_ops()
    ensures
        forall|j: u64| j < 64 ==> !#[trigger] bit(0u64, j),
        forall|j: u64| j < 64 ==> #[trigger] bit(u64::MAX, j),
        forall|a: u64, b: u64, j: u64|
            j < 64 ==> (#[trigger] bit(a | b, j) <==> bit(a, j) || bit(b, j)),
        forall|a: u64, b: u64, j: u64|
            j < 64 ==> (#[trigger] bit(a & b, j) <==> bit(a, j) && bit(b, j)),
        forall|a: u64, b: u64, j: u64|
            j < 64 ==> (#[trigger] bit(a ^ b, j) <==> bit(a, j) != bit(b, j)),
        forall|a: u64, j: u64| j < 64 ==> (#[trigger] bit(!a, j) <==> !bit(a, j)),
        forall|a: u64, b: u64, j: u64|
            j < 64 ==> (#[trigger] bit(a & !b, j) <==> bit(a, j) && !bit(b, j)),
{
    assert(forall|j: u64| j < 64 ==> !#[trigger] bit(0u64, j)) by (bit_vector);
    assert(forall|j: u64| j < 64 ==> #[trigger] bit(u64::MAX, j)) by (bit_vector);
    assert(forall|a: u64, b: u64, j: u64|
        j < 64 ==> (#[trigger] bit(a | b, j) <==> bit(a, j) || bit(b, j))) by (bit_vector);
    assert(forall|a: u64, b: u64, j: u64|
        j < 64 ==> (#[trigger] bit(a & b, j) <==> bit(a, j) && bit(b, j))) by (bit_vector);
    assert(forall|a: u64, b: u64, j: u64|
        j < 64 ==> (#[trigger] bit(a ^ b, j) <==> bit(a, j) != bit(b, j))) by (bit_vector);
    assert(forall|a: u64, j: u64| j < 64 ==> (#[trigger] bit(!a, j) <==> !bit(a, j)))
        by (bit_vector);
    assert(forall|a: u64, b: u64, j: u64|
        j < 64 ==> (#[trigger] bit(a & !b, j) <==> bit(a, j) && !bit(b, j))) by (bit_vector);
}

/// A word with the single bit `j` set.
pub proof fn lemma_single_bit(j: u64)
    requires
        j < 64,
    ensures
        forall|k: u64| k < 64 ==> (#[trigger] bit(1u64 << j, k) <==> k == j),
        1u64 << j != 0,
        forall|w: u64| (w & (1u64 << j) != 0) <==> #[trigger] bit(w, j),
{
    assert(forall|k: u64| k < 64 ==> (#[trigger] bit(1u64 << j, k) <==> k == j)) by (bit_vector)
        requires
            j < 64,
    ;
    assert(1u64 << j != 0) by (bit_vector)
        requires
            j < 64,
    ;
    assert(forall|w: u64| (w & (1u64 << j) != 0) <==> #[trigger] bit(w, j)) by (bit_vector)
        requires
            j < 64,
    ;
}

/// Two words are equal exactly when they agree on every bit.
pub proof fn lemma_bits_equal(a: u64, b: u64)
    requires
        forall|j: u64| j < 64 ==> bit(a, j) == bit(b, j),
    ensures
        a == b,
{
    if a != b {
        let x = a ^ b;
        assert(x != 0) by (bit_vector)
            requires
                x == a ^ b,
                a != b,
        ;
        axiom_u64_trailing_zeros(x);
        let j = u64_trailing_zeros(x) as u64;
        lemma_bit_ops();
        assert(bit(x, j));
        assert(bit(a, j) != bit(b, j));
    }
}

/// A nonzero word has a set bit.
pub proof fn lemma_nonzero_has_bit(w: u64) -> (j: u64)
    requires
        w != 0,
    ensures
        j < 64,
        bit(w, j),
{
    axiom_u64_trailing_zeros(w);
    u64_trailing_zeros(w) as u64
}

/// The number of set bits among the lowest `n` bits of `w`.
pub open spec fn count_bits(w: u64, n: nat) -> nat
    decreases n,
{
    if n == 0 {
        0
    } else {
        count_bits(w, (n - 1) as nat) + if bit(w, (n - 1) as u64) { 1nat } else { 0nat }
    }
}

pub proof fn lemma_count_bits_bound(w: u64, n: nat)
    ensures
        count_bits(w, n) <= n,
    decreases n,
{
    if n > 0 {
        lemma_count_bits_bound(w, (n - 1) as nat);
    }
}

/// Every bit of `u64::MAX` is set.
pub proof fn lemma_count_bits_max(n: nat)
    requires
        n <= 64,
    ensures
        count_bits(u64::MAX, n) == n,
    decreases n,
{
    if n > 0 {
        lemma_count_bits_max((n - 1) as nat);
        lemma_bit_ops();
        assert(bit(u64::MAX, (n - 1) as u64));
    }
}

/// Each two-bit field holds the number of set bits of the same field of `w`.
spec fn swar_pairs(w: u64) -> u64 {
    (w - ((w >> 1u64) & 0x5555555555555555u64)) as u64
}

/// Each four-bit field holds the number of set bits of the same field of `w`.
spec fn swar_nibbles(w: u64) -> u64 {
    let a = swar_pairs(w);
    ((a & 0x3333333333333333u64) + ((a >> 2u64) & 0x3333333333333333u64)) as u64
}

/// Each byte holds the number of set bits of the same byte of `w`.
spec fn swar_bytes(w: u64) -> u64 {
    let b = swar_nibbles(w);
    (((b + (b >> 4u64)) as u64) & 0x0f0f0f0f0f0f0f0fu64) as u64
}

/// The sum of the bytes of `c`, each at most 8, in the low byte.
spec fn fold_bytes(c: u64) -> u64 {
    let e = (c + (c >> 8u64)) as u64;
    let f = (e + (e >> 16u64)) as u64;
    ((f + (f >> 32u64)) as u64) & 0x7fu64
}

/// Adding up the bytes of a word whose bytes are at most 8.
proof fn lemma_fold_bytes(c: u64)
    by (bit_vector)
    requires
        (c >> 0u64) & 0xffu64 <= 8,
        (c >> 8u64) & 0xffu64 <= 8,
        (c >> 16u64) & 0xffu64 <= 8,
        (c >> 24u64) & 0xffu64 <= 8,
        (c >> 32u64) & 0xffu64 <= 8,
        (c >> 40u64) & 0xffu64 <= 8,
        (c >> 48u64) & 0xffu64 <= 8,
        (c >> 56u64) & 0xffu64 <= 8,
    ensures
        fold_bytes(c) == ((c >> 0u64) & 0xffu64) + ((c >> 8u64) & 0xffu64) + ((c >> 16u64) & 0xffu64) + ((c >> 24u64) & 0xffu64) + ((c >> 32u64) & 0xffu64) + ((c >> 40u64) & 0xffu64) + ((c >> 48u64) & 0xffu64) + ((c >> 56u64) & 0xffu64),
{
}

/// The parallel bit count of `w` is the sum of its bits.
proof fn lemma_swar(w: u64)
    ensures
        fold_bytes(swar_bytes(w)) == ((w >> 0u64) & 1u64) + ((w >> 1u64) & 1u64) + ((w >> 2u64) & 1u64) + ((w >> 3u64) & 1u64) + ((w >> 4u64) & 1u64) + ((w >> 5u64) & 1u64) + ((w >> 6u64) & 1u64) + ((w >> 7u64) & 1u64) + ((w >> 8u64) & 1u64) + ((w >> 9u64) & 1u64) + ((w >> 10u64) & 1u64) + ((w >> 11u64) & 1u64) + ((w >> 12u64) & 1u64) + ((w >> 13u64) & 1u64) + ((w >> 14u64) & 1u64) + ((w >> 15u64) & 1u64) + ((w >> 16u64) & 1u64) + ((w >> 17u64) & 1u64) + ((w >> 18u64) & 1u64) + ((w >> 19u64) & 1u64) + ((w >> 20u64) & 1u64) + ((w >> 21u64) & 1u64) + ((w >> 22u64) & 1u64) + ((w >> 23u64) & 1u64) + ((w >> 24u64) & 1u64) + ((w >> 25u64) & 1u64) + ((w >> 26u64) & 1u64) + ((w >> 27u64) & 1u64) + ((w >> 28u64) & 1u64) + ((w >> 29u64) & 1u64) + ((w >> 30u64) & 1u64) + ((w >> 31u64) & 1u64) + ((w >> 32u64) & 1u64) + ((w >> 33u64) & 1u64) + ((w >> 34u64) & 1u64) + ((w >> 35u64) & 1u64) + ((w >> 36u64) & 1u64) + ((w >> 37u64) & 1u64) + ((w >> 38u64) & 1u64) + ((w >> 39u64) & 1u64) + ((w >> 40u64) & 1u64) + ((w >> 41u64) & 1u64) + ((w >> 42u64) & 1u64) + ((w >> 43u64) & 1u64) + ((w >> 44u64) & 1u64) + ((w >> 45u64) & 1u64) + ((w >> 46u64) & 1u64) + ((w >> 47u64) & 1u64) + ((w >> 48u64) & 1u64) + ((w >> 49u64) & 1u64) + ((w >> 50u64) & 1u64) + ((w >> 51u64) & 1u64) + ((w >> 52u64) & 1u64) + ((w >> 53u64) & 1u64) + ((w >> 54u64) & 1u64) + ((w >> 55u64) & 1u64) + ((w >> 56u64) & 1u64) + ((w >> 57u64) & 1u64) + ((w >> 58u64) & 1u64) + ((w >> 59u64) & 1u64) + ((w >> 60u64) & 1u64) + ((w >> 61u64) & 1u64) + ((w >> 62u64) & 1u64) + ((w >> 63u64) & 1u64),
{
    assert((swar_bytes(w) >> 0u64) & 0xffu64 == ((w >> 0u64) & 1u64) + ((w >> 1u64) & 1u64) + ((w >> 2u64) & 1u64) + ((w >> 3u64) & 1u64) + ((w >> 4u64) & 1u64) + ((w >> 5u64) & 1u64) + ((w >> 6u64) & 1u64) + ((w >> 7u64) & 1u64)) by (bit_vector);
    assert((swar_bytes(w) >> 8u64) & 0xffu64 == ((w >> 8u64) & 1u64) + ((w >> 9u64) & 1u64) + ((w >> 10u64) & 1u64) + ((w >> 11u64) & 1u64) + ((w >> 12u64) & 1u64) + ((w >> 13u64) & 1u64) + ((w >> 14u64) & 1u64) + ((w >> 15u64) & 1u64)) by (bit_vector);
    assert((swar_bytes(w) >> 16u64) & 0xffu64 == ((w >> 16u64) & 1u64) + ((w >> 17u64) & 1u64) + ((w >> 18u64) & 1u64) + ((w >> 19u64) & 1u64) + ((w >> 20u64) & 1u64) + ((w >> 21u64) & 1u64) + ((w >> 22u64) & 1u64) + ((w >> 23u64) & 1u64)) by (bit_vector);
    assert((swar_bytes(w) >> 24u64) & 0xffu64 == ((w >> 24u64) & 1u64) + ((w >> 25u64) & 1u64) + ((w >> 26u64) & 1u64) + ((w >> 27u64) & 1u64) + ((w >> 28u64) & 1u64) + ((w >> 29u64) & 1u64) + ((w >> 30u64) & 1u64) + ((w >> 31u64) & 1u64)) by (bit_vector);
    assert((swar_bytes(w) >> 32u64) & 0xffu64 == ((w >> 32u64) & 1u64) + ((w >> 33u64) & 1u64) + ((w >> 34u64) & 1u64) + ((w >> 35u64) & 1u64) + ((w >> 36u64) & 1u64) + ((w >> 37u64) & 1u64) + ((w >> 38u64) & 1u64) + ((w >> 39u64) & 1u64)) by (bit_vector);
    assert((swar_bytes(w) >> 40u64) & 0xffu64 == ((w >> 40u64) & 1u64) + ((w >> 41u64) & 1u64) + ((w >> 42u64) & 1u64) + ((w >> 43u64) & 1u64) + ((w >> 44u64) & 1u64) + ((w >> 45u64) & 1u64) + ((w >> 46u64) & 1u64) + ((w >> 47u64) & 1u64)) by (bit_vector);
    assert((swar_bytes(w) >> 48u64) & 0xffu64 == ((w >> 48u64) & 1u64) + ((w >> 49u64) & 1u64) + ((w >> 50u64) & 1u64) + ((w >> 51u64) & 1u64) + ((w >> 52u64) & 1u64) + ((w >> 53u64) & 1u64) + ((w >> 54u64) & 1u64) + ((w >> 55u64) & 1u64)) by (bit_vector);
    assert((swar_bytes(w) >> 56u64) & 0xffu64 == ((w >> 56u64) & 1u64) + ((w >> 57u64) & 1u64) + ((w >> 58u64) & 1u64) + ((w >> 59u64) & 1u64) + ((w >> 60u64) & 1u64) + ((w >> 61u64) & 1u64) + ((w >> 62u64) & 1u64) + ((w >> 63u64) & 1u64)) by (bit_vector);
    assert(forall|j: u64| #[trigger] ((w >> j) & 1u64) <= 1u64) by (bit_vector);
    lemma_fold_bytes(swar_bytes(w));
}

/// The number of set bits among the lowest 64 of `w`, bit by bit.
proof fn lemma_count_bits_sum(w: u64)
    ensures
        count_bits(w, 64) == ((w >> 0u64) & 1u64) + ((w >> 1u64) & 1u64) + ((w >> 2u64) & 1u64) + ((w >> 3u64) & 1u64) + ((w >> 4u64) & 1u64) + ((w >> 5u64) & 1u64) + ((w >> 6u64) & 1u64) + ((w >> 7u64) & 1u64) + ((w >> 8u64) & 1u64) + ((w >> 9u64) & 1u64) + ((w >> 10u64) & 1u64) + ((w >> 11u64) & 1u64) + ((w >> 12u64) & 1u64) + ((w >> 13u64) & 1u64) + ((w >> 14u64) & 1u64) + ((w >> 15u64) & 1u64) + ((w >> 16u64) & 1u64) + ((w >> 17u64) & 1u64) + ((w >> 18u64) & 1u64) + ((w >> 19u64) & 1u64) + ((w >> 20u64) & 1u64) + ((w >> 21u64) & 1u64) + ((w >> 22u64) & 1u64) + ((w >> 23u64) & 1u64) + ((w >> 24u64) & 1u64) + ((w >> 25u64) & 1u64) + ((w >> 26u64) & 1u64) + ((w >> 27u64) & 1u64) + ((w >> 28u64) & 1u64) + ((w >> 29u64) & 1u64) + ((w >> 30u64) & 1u64) + ((w >> 31u64) & 1u64) + ((w >> 32u64) & 1u64) + ((w >> 33u64) & 1u64) + ((w >> 34u64) & 1u64) + ((w >> 35u64) & 1u64) + ((w >> 36u64) & 1u64) + ((w >> 37u64) & 1u64) + ((w >> 38u64) & 1u64) + ((w >> 39u64) & 1u64) + ((w >> 40u64) & 1u64) + ((w >> 41u64) & 1u64) + ((w >> 42u64) & 1u64) + ((w >> 43u64) & 1u64) + ((w >> 44u64) & 1u64) + ((w >> 45u64) & 1u64) + ((w >> 46u64) & 1u64) + ((w >> 47u64) & 1u64) + ((w >> 48u64) & 1u64) + ((w >> 49u64) & 1u64) + ((w >> 50u64) & 1u64) + ((w >> 51u64) & 1u64) + ((w >> 52u64) & 1u64) + ((w >> 53u64) & 1u64) + ((w >> 54u64) & 1u64) + ((w >> 55u64) & 1u64) + ((w >> 56u64) & 1u64) + ((w >> 57u64) & 1u64) + ((w >> 58u64) & 1u64) + ((w >> 59u64) & 1u64) + ((w >> 60u64) & 1u64) + ((w >> 61u64) & 1u64) + ((w >> 62u64) & 1u64) + ((w >> 63u64) & 1u64),
{
    assert(forall|j: u64| #[trigger] ((w >> j) & 1u64) == 0u64 || ((w >> j) & 1u64) == 1u64)
        by (bit_vector);
    reveal_with_fuel(count_bits, 65);
}

/// The number of set bits of `w`, counted in parallel: first in each pair of
/// bits, then in each nibble, then in each byte, then across the bytes.
pub fn count_ones(w: u64) -> (r: u32)
    ensures
        r == count_bits(w, 64),
{
    proof {
        assert((w >> 1u64) & 0x5555555555555555u64 <= w) by (bit_vector);
        assert((swar_pairs(w) & 0x3333333333333333u64) + ((swar_pairs(w) >> 2u64) & 0x3333333333333333u64)
            <= 0xffff_ffff_ffff_ffffu64) by (bit_vector);
        assert(swar_nibbles(w) + (swar_nibbles(w) >> 4u64) <= 0xffff_ffff_ffff_ffffu64) by (bit_vector);
        assert(swar_bytes(w) + (swar_bytes(w) >> 8u64) <= 0xffff_ffff_ffff_ffffu64) by (bit_vector);
        assert(({
            let e = (swar_bytes(w) + (swar_bytes(w) >> 8u64)) as u64;
            e + (e >> 16u64) <= 0xffff_ffff_ffff_ffffu64
        })) by (bit_vector);
        assert(({
            let e = (swar_bytes(w) + (swar_bytes(w) >> 8u64)) as u64;
            let f = (e + (e >> 16u64)) as u64;
            f + (f >> 32u64) <= 0xffff_ffff_ffff_ffffu64
        })) by (bit_vector);
        lemma_swar(w);
        lemma_count_bits_sum(w);
    }
    let a = w - ((w >> 1) & 0x5555555555555555u64);
    let b = (a & 0x3333333333333333u64) + ((a >> 2) & 0x3333333333333333u64);
    let c = (b + (b >> 4)) & 0x0f0f0f0f0f0f0f0fu64;
    let e = c + (c >> 8);
    let f = e + (e >> 16);
    let g = f + (f >> 32);
    proof {
        assert(a == swar_pairs(w));
        assert(b == swar_nibbles(w));
        assert(c == swar_bytes(w));
        assert(g & 0x7fu64 == fold_bytes(c));
        lemma_count_bits_bound(w, 64);
    }
    (g & 0x7fu64) as u32
}

/// The mask of the bits below `j`.
pub proof fn lemma_low_mask(j: u64)
    requires
        j < 64,
    ensures
        (1u64 << j) >= 1,
        forall|k: u64| k < 64 ==> (#[trigger] bit(((1u64 << j) - 1) as u64, k) <==> k < j),
{
    assert((1u64 << j) >= 1) by (bit_vector)
        requires
            j < 64,
    ;
    assert(forall|k: u64| k < 64 ==> (#[trigger] bit(((1u64 << j) - 1) as u64, k) <==> k < j))
        by (bit_vector)
        requires
            j < 64,
    ;
}

} // verus!
