//! Facts about the bit operations on machine words that the arithmetic and
//! the processor use: masks, complements, sign bits, shifts and joins.
use vstd::prelude::*;

verus! {

/// An 18-bit word held in a `u32`: masking, sign bit and the top bit
/// shifted down.
pub proof fn lemma_word_bits(x: u32)
    by (bit_vector)
    ensures
        x & 0o777777u32 == x % 0o1000000u32,
        x <= 0o777777u32 ==> x & 0o777777u32 == x,
        x <= 0o777777u32 ==> ((x & 0o400000u32 == 0) == (x < 0o400000u32)),
        x <= 0o777777u32 ==> (x >> 17u32) & 1u32 == x / 0o400000u32,
        (x >> 17u32) & 1u32 <= 1u32,
        x & 0o7777u32 <= 0o777777u32,
{
}

/// An 18-bit word held in a `u32`: complement, sign extension of a 12-bit
/// field, and shifting left by one.
pub proof fn lemma_word_arith_bits(x: u32)
    by (bit_vector)
    ensures
        x <= 0o777777u32 ==> (!x) & 0o777777u32 == 0o777777u32 - x,
        x <= 0o7777u32 ==> x | 0o770000u32 == x + 0o770000u32,
        x < 0o1000000u32 ==> (x << 1u32) & 0o777777u32 == (2 * x) % 0o1000000,
        ((x << 1u32) & 0o777777u32) | 1u32 == ((x << 1u32) & 0o777777u32) + 1u32,
{
}

/// A 36-bit word held in a `u64`: masking, halves, complement, sign bit
/// and truncation to 32 bits.
pub proof fn lemma_double_bits(x: u64)
    by (bit_vector)
    ensures
        x & 0o777777_777777u64 == x % 0o1_000000_000000u64,
        x & 0o777777u64 == x % 0o1000000u64,
        x >> 18u64 == x / 0o1000000u64,
        (x >> 18u64) & 0o777777u64 == (x / 0o1000000u64) % 0o1000000u64,
        x <= 0o777777_777777u64 ==> (!x) & 0o777777_777777u64 == 0o777777_777777u64 - x,
        x <= 0o777777_777777u64 ==> x ^ 0o777777_777777u64 == 0o777777_777777u64 - x,
        x <= 0o777777u64 ==> (!x) & 0o777777u64 == 0o777777u64 - x,
        x <= 0o777777_777777u64 ==> ((x & 0o400000_000000u64 == 0) == (x < 0o400000_000000u64)),
        x <= 0o777777_777777u64 ==> (x >> 35u64) & 1u64 == x / 0o400000_000000u64,
        (x >> 35u64) & 1u64 <= 1u64,
{
}

/// A 64-bit value cut to its low 32 bits.
pub proof fn lemma_truncate_bits(x: u64, t: u32)
    by (bit_vector)
    requires
        t == x as u32,
    ensures
        t == x % 0x1_0000_0000,
{
}

/// Two halves side by side: an upper 18-bit half joined to a lower one.
pub proof fn lemma_join_bits(hi: u64, lo: u64)
    by (bit_vector)
    requires
        hi <= 0o777777u64,
        lo <= 0o777777u64,
    ensures
        (hi << 18u64) | lo == hi * 0o1000000 + lo,
{
}

/// A 12-bit address joined to the bank of an 18-bit address, or to a bank
/// number.
pub proof fn lemma_bank_bits(p: u32, bank: u32, y: u32)
    by (bit_vector)
    requires
        p <= 0o777777u32,
        bank < 64u32,
        y <= 0o7777u32,
    ensures
        (p & 0o770000u32) | y == (p / 4096) * 4096 + y,
        (bank << 12u32) | y == bank * 4096 + y,
{
}

/// The special register's bits: bit 3 enables bank selection, and bits
/// 0-2 with bit 4 give the bank; a 6-bit field masked by any switches
/// stays within 6 bits.
pub proof fn lemma_register_bits(sr: u8, k: u8, switches: u8)
    by (bit_vector)
    requires
        sr < 32u8,
        k < 64u8,
    ensures
        (sr & 0b1000u8 != 0u8) == (sr % 16 >= 8),
        (sr & 0b111u8) | ((sr & 0b10000u8) >> 1u8) == (sr % 8) + (sr / 16) * 8,
        sr & 0b10111u8 < 32u8,
        k & switches < 64u8,
{
}

/// A shift register's top bit shifted in below an 18-bit word.
pub proof fn lemma_shift_in_bits(hi: u32, lo: u32)
    by (bit_vector)
    requires
        hi <= 0o777777u32,
        lo <= 1u32,
    ensures
        ((hi << 1u32) | lo) & 0o777777u32 == (2 * hi + lo) % 0o1000000,
{
}

/// Shifting right never makes a value larger.
pub proof fn lemma_shr_bits(v: u32, k: u32, w: u64, j: u64)
    by (bit_vector)
    ensures
        v >> k <= v,
        w >> j <= w,
{
}

/// The right shift of a negative 18-bit word with the sign copied into
/// the vacated places is the complement of the shifted magnitude.
pub proof fn lemma_rshift_negative_bits(v: u32, k: u32)
    by (bit_vector)
    requires
        0o377777u32 < v <= 0o777777u32,
        k <= 18u32,
    ensures
        1u32 << k >= 1u32,
        (1u32 << k) - 1u32 <= 0o777777u32,
        ((v >> k) | ((((1u32 << k) - 1u32) as u32) << ((18u32 - k) as u32))) & 0o777777u32
            == 0o777777u32 - (((0o777777u32 - v) as u32) >> k),
{
}

/// The right shift of a negative 36-bit word with the sign copied into
/// the vacated places is the complement of the shifted magnitude.
pub proof fn lemma_rshift_negative_double_bits(v: u64, k: u64)
    by (bit_vector)
    requires
        0o377777_777777u64 < v <= 0o777777_777777u64,
        k <= 36u64,
    ensures
        1u64 << k >= 1u64,
        (1u64 << k) - 1u64 <= 0o777777_777777u64,
        ((v >> k) | ((((1u64 << k) - 1u64) as u64) << ((36u64 - k) as u64))) & 0o777777_777777u64
            == 0o777777_777777u64 - (((0o777777_777777u64 - v) as u64) >> k),
{
}

/// An 18-bit word rotated left by one, the top bit coming round to the
/// bottom.
pub proof fn lemma_rotate_bits(a: u32, top: u32, r: u32)
    by (bit_vector)
    requires
        a <= 0o777777u32,
        top == (a >> 17u32) & 1u32,
        r == ((a << 1u32) & 0o777777u32) | top,
    ensures
        r == (a * 2) % 0o1000000 + a / 0o400000,
        r <= 0o777777u32,
{
}

/// A 36-bit word rotated left by one, the top bit coming round to the
/// bottom.
pub proof fn lemma_rotate_double_bits(a: u64, top: u64, r: u64)
    by (bit_vector)
    requires
        a <= 0o777777_777777u64,
        top == (a >> 35u64) & 1u64,
        r == ((a << 1u64) & 0o777777_777777u64) | top,
    ensures
        r == (a * 2) % 0o1_000000_000000 + a / 0o400000_000000,
        r <= 0o777777_777777u64,
{
}

/// Bits taken from one 18-bit word where a mask is set and from another
/// where it is clear form an 18-bit word.
pub proof fn lemma_merge_bits(keep: u32, a: u32, b: u32, mask: u32)
    by (bit_vector)
    requires
        a <= 0o777777u32,
        b <= 0o777777u32,
    ensures
        (a & keep) | (b & mask) <= 0o777777u32,
        (a & keep) | b <= 0o777777u32,
        a | b <= 0o777777u32,
        a & b <= 0o777777u32,
        a ^ b <= 0o777777u32,
{
}

/// A character code below 256 with the end-of-string mark (bit 8) set by
/// a bitwise or.
pub proof fn lemma_mark_bits(b: u32)
    by (bit_vector)
    requires
        b < 256u32,
    ensures
        b | 0o400u32 == b + 0o400u32,
        b | 0u32 == b,
{
}

} // verus!
