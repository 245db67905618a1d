//! One's complement arithmetic on 18-bit and 36-bit words.
//!
//! An 18-bit word is held in a `u32` below 2^18, a 36-bit word in a `u64`
//! below 2^36.
use vstd::prelude::*;
use crate::bits::{
    lemma_double_bits, lemma_rshift_negative_bits, lemma_rshift_negative_double_bits,
    lemma_shift_in_bits, lemma_shr_bits, lemma_word_arith_bits, lemma_word_bits,
};
use vstd::arithmetic::power2::{pow2, lemma_pow2_unfold, lemma_pow2_adds, lemma2_to64, lemma_pow2_pos};

verus! {

/// All ones in an 18-bit word (negative zero in one's complement).
pub const WORD_MASK: u32 = 0o777777;

/// All ones in a 36-bit word.
pub const DOUBLE_MASK: u64 = 0o777777_777777;

/// Largest positive 18-bit one's complement value.
pub const WORD_MAX_POSITIVE: u32 = 0o377777;

/// Largest positive 36-bit one's complement value.
pub const DOUBLE_MAX_POSITIVE: u64 = 0o377777_777777;

pub open spec fn is_word(x: int) -> bool {
    0 <= x <= 0o777777
}

pub open spec fn is_double(x: int) -> bool {
    0 <= x <= 0o777777_777777
}

/// The integer that an 18-bit one's complement word stands for.
pub open spec fn ones_value_18(x: int) -> int {
    if x <= 0o377777 {
        x
    } else {
        x - 0o777777
    }
}

/// The integer that a 36-bit one's complement word stands for.
pub open spec fn ones_value_36(x: int) -> int {
    if x <= 0o377777_777777 {
        x
    } else {
        x - 0o777777_777777
    }
}

/// The integer that a 12-bit one's complement field stands for.
pub open spec fn ones_value_12(x: int) -> int {
    if x <= 0o3777 {
        x
    } else {
        x - 0o7777
    }
}

/// Whether an 18-bit word is negative (its sign bit is set).
pub open spec fn is_negative_18(x: int) -> bool {
    x > 0o377777
}

/// Whether a 36-bit word is negative (its sign bit is set).
pub open spec fn is_negative_36(x: int) -> bool {
    x > 0o377777_777777
}

/// Magnitude of an 18-bit one's complement word.
pub open spec fn magnitude_18(x: int) -> int {
    if is_negative_18(x) {
        0o777777 - x
    } else {
        x
    }
}

/// Magnitude of a 36-bit one's complement word.
pub open spec fn magnitude_36(x: int) -> int {
    if is_negative_36(x) {
        0o777777_777777 - x
    } else {
        x
    }
}

/// End-around-carry addition of two 18-bit words, with a result of
/// negative zero turned into positive zero when no carry occurs.
pub open spec fn spec_add_18(a: int, b: int) -> int {
    if a + b > 0o777777 {
        a + b - 0o777777
    } else if a + b == 0o777777 {
        0
    } else {
        a + b
    }
}

/// End-around-carry addition of two 36-bit words, with a result of
/// negative zero turned into positive zero when no carry occurs.
pub open spec fn spec_add_36(a: int, b: int) -> int {
    if a + b > 0o777777_777777 {
        a + b - 0o777777_777777
    } else if a + b == 0o777777_777777 {
        0
    } else {
        a + b
    }
}

/// Sign extension of a 12-bit field to an 18-bit word.
pub open spec fn spec_sign_extend_12_to_18(u: int) -> int {
    if u > 0o3777 {
        u + 0o770000
    } else {
        u
    }
}

/// Shifts an 18-bit word right by `k`, filling with copies of the sign bit.
pub open spec fn spec_rshift_18(v: int, k: nat) -> int {
    if is_negative_18(v) {
        0o777777 - (0o777777 - v) / pow2(k) as int
    } else {
        v / pow2(k) as int
    }
}

/// Shifts a 36-bit word right by `k`, filling with copies of the sign bit.
pub open spec fn spec_rshift_36(v: int, k: nat) -> int {
    if is_negative_36(v) {
        0o777777_777777 - (0o777777_777777 - v) / pow2(k) as int
    } else {
        v / pow2(k) as int
    }
}

/// The 36-bit product of two 18-bit words: the product of the magnitudes,
/// complemented when exactly one factor is negative.
pub open spec fn spec_mul_18(a: int, b: int) -> int {
    let p = magnitude_18(a) * magnitude_18(b);
    if is_negative_18(a) != is_negative_18(b) {
        0o777777_777777 - p
    } else {
        p
    }
}

proof fn lemma_mul_18_value(a: int, b: int)
    requires
        is_word(a),
        is_word(b),
    ensures
        ones_value_36(spec_mul_18(a, b)) == ones_value_18(a) * ones_value_18(b),
        0 <= magnitude_18(a) * magnitude_18(b) <= 0o377777 * 0o377777,
{
    let ma = magnitude_18(a);
    let mb = magnitude_18(b);
    assert(0 <= ma * mb <= 0o377777 * 0o377777) by (nonlinear_arith)
        requires
            0 <= ma <= 0o377777,
            0 <= mb <= 0o377777,
    ;
    let va = ones_value_18(a);
    let vb = ones_value_18(b);
    assert(va == if is_negative_18(a) { -ma } else { ma });
    assert(vb == if is_negative_18(b) { -mb } else { mb });
    assert(va * vb == if is_negative_18(a) != is_negative_18(b) { -(ma * mb) } else { ma * mb })
        by (nonlinear_arith)
        requires
            va == if is_negative_18(a) { -ma } else { ma },
            vb == if is_negative_18(b) { -mb } else { mb },
    ;
}

/// Sum of two 18-bit words modulo 2^18, as 18-bit register arithmetic
/// wraps.
pub fn wrapping_add_18(a: u32, b: u32) -> (r: u32)
    requires
        is_word(a as int),
        is_word(b as int),
    ensures
        r == (a + b) % 0o1000000,
        is_word(r as int),
{
    let sum = a + b;
    proof {
        lemma_word_bits(sum);
    }
    sum & WORD_MASK
}

/// Difference of two 18-bit words modulo 2^18, as 18-bit register
/// arithmetic wraps.
pub fn wrapping_sub_18(a: u32, b: u32) -> (r: u32)
    requires
        is_word(a as int),
        is_word(b as int),
    ensures
        r == (a - b + 0o1000000) % 0o1000000,
        is_word(r as int),
{
    let sum = a + 0o1000000 - b;
    proof {
        lemma_word_bits(sum);
    }
    sum & WORD_MASK
}

/// Sign extension of a 12-bit field to an 18-bit word.
pub fn sign_extend_12_to_18(u: u16) -> (r: u32)
    requires
        u <= 0o7777,
    ensures
        r == spec_sign_extend_12_to_18(u as int),
        is_word(r as int),
        ones_value_18(r as int) == ones_value_12(u as int),
{
    let val = u as u32;
    if val > 0o3777 {
        proof {
            lemma_word_arith_bits(val);
        }
        val | 0o770000
    } else {
        val
    }
}

/// Whether a word is positive zero.
pub fn is_zero(val: u32) -> (r: bool)
    ensures
        r == (val == 0),
{
    val == 0
}

/// One's complement negation of an 18-bit word.
pub fn complement_18(x: u32) -> (r: u32)
    requires
        is_word(x as int),
    ensures
        r == 0o777777 - x,
        ones_value_18(r as int) == -ones_value_18(x as int),
{
    proof {
        lemma_word_arith_bits(x);
    }
    (!x) & WORD_MASK
}

/// One's complement negation of a 36-bit word.
pub fn complement_36(x: u64) -> (r: u64)
    requires
        is_double(x as int),
    ensures
        r == 0o777777_777777 - x,
        ones_value_36(r as int) == -ones_value_36(x as int),
{
    proof {
        lemma_double_bits(x);
    }
    (!x) & DOUBLE_MASK
}

/// End-around-carry addition of two 18-bit words.
pub fn add_18(a: u32, b: u32) -> (r: u32)
    requires
        is_word(a as int),
        is_word(b as int),
    ensures
        r == spec_add_18(a as int, b as int),
        is_word(r as int),
        -0o377777 <= ones_value_18(a as int) + ones_value_18(b as int) <= 0o377777
            ==> ones_value_18(r as int) == ones_value_18(a as int) + ones_value_18(b as int),
{
    let sum = a + b;
    let mut result = sum & WORD_MASK;
    if sum > WORD_MASK {
        proof {
            lemma_word_bits(sum);
        }
        result += 1;
        let pre = result;
        proof {
            lemma_word_bits(pre);
        }
        result &= WORD_MASK;
    } else {
        proof {
            lemma_word_bits(sum);
        }
        if result == WORD_MASK {
            result = 0;
        }
    }
    result
}

/// End-around-carry addition of two 36-bit words.
pub fn add_36(a: u64, b: u64) -> (r: u64)
    requires
        is_double(a as int),
        is_double(b as int),
    ensures
        r == spec_add_36(a as int, b as int),
        is_double(r as int),
        -0o377777_777777 <= ones_value_36(a as int) + ones_value_36(b as int) <= 0o377777_777777
            ==> ones_value_36(r as int) == ones_value_36(a as int) + ones_value_36(b as int),
{
    let sum = a + b;
    if sum > DOUBLE_MASK {
        sum - DOUBLE_MASK
    } else if sum == DOUBLE_MASK {
        0
    } else {
        sum
    }
}

/// Subtraction of 18-bit words: adds the complement of the subtrahend.
pub fn sub_18(a: u32, b: u32) -> (r: u32)
    requires
        is_word(a as int),
        is_word(b as int),
    ensures
        r == spec_add_18(a as int, 0o777777 - b),
        is_word(r as int),
        -0o377777 <= ones_value_18(a as int) - ones_value_18(b as int) <= 0o377777
            ==> ones_value_18(r as int) == ones_value_18(a as int) - ones_value_18(b as int),
        a == b ==> r == 0,
{
    add_18(a, complement_18(b))
}

/// Subtraction of 36-bit words: adds the complement of the subtrahend.
pub fn sub_36(a: u64, b: u64) -> (r: u64)
    requires
        is_double(a as int),
        is_double(b as int),
    ensures
        r == spec_add_36(a as int, 0o777777_777777 - b),
        is_double(r as int),
        -0o377777_777777 <= ones_value_36(a as int) - ones_value_36(b as int) <= 0o377777_777777
            ==> ones_value_36(r as int) == ones_value_36(a as int) - ones_value_36(b as int),
        a == b ==> r == 0,
{
    add_36(a, complement_36(b))
}

/// The signed integer that an 18-bit one's complement word stands for.
pub fn ones_to_signed_18(val: u32) -> (r: i32)
    requires
        is_word(val as int),
    ensures
        r == ones_value_18(val as int),
{
    if val > WORD_MAX_POSITIVE {
        -((WORD_MASK - val) as i32)
    } else {
        val as i32
    }
}

/// Multiplies two 18-bit words into a 36-bit word: the product of the
/// magnitudes, complemented once for each negative factor.
pub fn mul_18(a: u32, b: u32) -> (r: u64)
    requires
        is_word(a as int),
        is_word(b as int),
    ensures
        r == spec_mul_18(a as int, b as int),
        is_double(r as int),
        ones_value_36(r as int) == ones_value_18(a as int) * ones_value_18(b as int),
{
    proof {
        lemma_mul_18_value(a as int, b as int);
    }
    let a_val = a as u64;
    let a_neg = a_val > 131071;
    proof {
        lemma_double_bits(a_val);
    }
    let a_mag = if a_neg { (!a_val) & 0o777777 } else { a_val };

    let b_val = b as u64;
    let b_neg = b_val > 131071;
    proof {
        lemma_double_bits(b_val);
    }
    let b_mag = if b_neg { (!b_val) & 0o777777 } else { b_val };

    assert(a_mag * b_mag <= 131071 * 131071) by (nonlinear_arith)
        requires
            a_mag <= 131071,
            b_mag <= 131071,
    ;
    let mut product = a_mag * b_mag;
    let ghost p = product;

    if a_neg {
        let pre = product;
        proof {
            lemma_double_bits(pre);
        }
        product = (!product) & 0o777777_777777;
    }
    if b_neg {
        let pre = product;
        proof {
            lemma_double_bits(pre);
        }
        product = (!product) & 0o777777_777777;
    }
    product
}

/// Shifts an 18-bit word right by `shift` places, filling the vacated
/// places with copies of the sign bit.
pub fn rshift_18(val: u32, shift: u8) -> (r: u32)
    requires
        is_word(val as int),
        shift < 32,
        is_negative_18(val as int) ==> shift <= 18,
    ensures
        r == spec_rshift_18(val as int, shift as nat),
        is_word(r as int),
        ones_value_18(r as int) == if is_negative_18(val as int) {
            -(magnitude_18(val as int) / pow2(shift as nat) as int)
        } else {
            magnitude_18(val as int) / pow2(shift as nat) as int
        },
{
    proof {
        lemma_pow2_pos(shift as nat);
        let m = magnitude_18(val as int);
        assert(m / pow2(shift as nat) as int <= m) by {
            vstd::arithmetic::div_mod::lemma_div_is_ordered_by_denominator(m, 1, pow2(shift as nat) as int);
        }
    }
    let v = val;
    let k = shift as u32;
    let result = v >> k;
    proof {
        vstd::bits::lemma_u32_shr_is_div(v, k);
    }
    if v & 0o400000 != 0 {
        proof {
            lemma_word_bits(v);
            lemma_rshift_negative_bits(v, k);
        }
        let low = (1u32 << k) - 1;
        let sh = 18 - k;
        let mask = low << sh;
        let r = (result | mask) & WORD_MASK;
        let neg = WORD_MASK - v;
        proof {
            lemma_shr_bits(neg, k, 0, 0);
        }
        proof {
            vstd::bits::lemma_u32_shr_is_div(neg, k);
        }
        r
    } else {
        proof {
            lemma_word_bits(v);
            lemma_shr_bits(v, k, 0, 0);
        }
        result
    }
}

/// Shifts a 36-bit word right by `shift` places, filling the vacated
/// places with copies of the sign bit.
pub fn rshift_36(val: u64, shift: u8) -> (r: u64)
    requires
        is_double(val as int),
        shift < 64,
        is_negative_36(val as int) ==> shift <= 36,
    ensures
        r == spec_rshift_36(val as int, shift as nat),
        is_double(r as int),
        ones_value_36(r as int) == if is_negative_36(val as int) {
            -(magnitude_36(val as int) / pow2(shift as nat) as int)
        } else {
            magnitude_36(val as int) / pow2(shift as nat) as int
        },
{
    proof {
        lemma_pow2_pos(shift as nat);
        let m = magnitude_36(val as int);
        assert(m / pow2(shift as nat) as int <= m) by {
            vstd::arithmetic::div_mod::lemma_div_is_ordered_by_denominator(m, 1, pow2(shift as nat) as int);
        }
    }
    let v = val;
    let k = shift as u64;
    let result = v >> k;
    proof {
        vstd::bits::lemma_u64_shr_is_div(v, k);
    }
    if v & 0o400000_000000 != 0 {
        proof {
            lemma_double_bits(v);
            lemma_rshift_negative_double_bits(v, k);
        }
        let low = (1u64 << k) - 1;
        let sh = 36 - k;
        let mask = low << sh;
        let r = (result | mask) & DOUBLE_MASK;
        let neg = DOUBLE_MASK - v;
        proof {
            lemma_shr_bits(0, 0, neg, k);
        }
        proof {
            vstd::bits::lemma_u64_shr_is_div(neg, k);
        }
        r
    } else {
        proof {
            lemma_double_bits(v);
            lemma_shr_bits(0, 0, v, k);
        }
        result
    }
}

/// One step of restoring division on an 18-bit partial remainder `r` and
/// an 18-bit shift register `q`: both shift left as one 36-bit register,
/// and the divisor is subtracted from the remainder when it fits, setting
/// the low bit of `q`.
pub open spec fn restore_step(r: int, q: int, s: int) -> (int, int) {
    let r1 = (2 * r + q / 0o400000) % 0o1000000;
    let q1 = (2 * q) % 0o1000000;
    if r1 >= s {
        (r1 - s, q1 + 1)
    } else {
        (r1, q1)
    }
}

/// `n` steps of restoring division, as (partial remainder, shift register).
pub open spec fn restore_division(r: int, q: int, s: int, n: nat) -> (int, int)
    decreases n,
{
    if n == 0 {
        (r, q)
    } else {
        let prev = restore_division(r, q, s, (n - 1) as nat);
        restore_step(prev.0, prev.1, s)
    }
}

/// `x` complemented when `neg` holds and `x` is not zero.
pub open spec fn negate_nonzero_18(neg: bool, x: int) -> int {
    if neg && x != 0 {
        0o777777 - x
    } else {
        x
    }
}

/// Quotient and remainder of the hardware's restoring division of a 36-bit
/// word by an 18-bit word; (0, 0) for a zero divisor.
pub open spec fn spec_div(dividend: int, divisor: int) -> (int, int) {
    let d = magnitude_36(dividend);
    let s = magnitude_18(divisor);
    if s == 0 {
        (0, 0)
    } else {
        let rq = restore_division(d / 0o1000000, d % 0o1000000, s, 18);
        (
            negate_nonzero_18(is_negative_36(dividend) != is_negative_18(divisor), rq.1),
            negate_nonzero_18(is_negative_36(dividend), rq.0),
        )
    }
}

/// One step of restoring division keeps the division identity of the
/// dividend's bits consumed so far.
proof fn lemma_restore_step_identity(
    d: int,
    s: int,
    r: int,
    q: int,
    quo: int,
    rest: int,
    plo: int,
    phi2: int,
)
    requires
        1 <= s < 0o400000,
        plo >= 1,
        phi2 >= 1,
        plo * phi2 == 0o400000,
        0 <= quo < plo,
        0 <= rest < 2 * phi2,
        q == rest * plo + quo,
        0 <= r < s,
        d == (quo * s + r) * (2 * phi2) + rest,
    ensures
        ({
            let next = restore_step(r, q, s);
            let b = rest / phi2;
            let rest1 = rest % phi2;
            let quo1 = 2 * quo + (if (2 * r + b) >= s { 1int } else { 0int });
            &&& 0 <= quo1 < 2 * plo
            &&& 0 <= rest1 < phi2
            &&& next.1 == rest1 * (2 * plo) + quo1
            &&& 0 <= next.0 < s
            &&& d == (quo1 * s + next.0) * phi2 + rest1
        }),
{
    let b = rest / phi2;
    let rest1 = rest % phi2;
    assert(rest == b * phi2 + rest1 && 0 <= rest1 < phi2 && 0 <= b <= 1) by (nonlinear_arith)
        requires
            phi2 >= 1,
            0 <= rest < 2 * phi2,
            b == rest / phi2,
            rest1 == rest % phi2,
    ;
    let low = rest1 * plo + quo;
    assert(0 <= low < 0o400000) by (nonlinear_arith)
        requires
            0 <= rest1 < phi2,
            0 <= quo < plo,
            plo * phi2 == 0o400000,
            low == rest1 * plo + quo,
    ;
    assert(q == b * 0o400000 + low) by (nonlinear_arith)
        requires
            q == rest * plo + quo,
            rest == b * phi2 + rest1,
            low == rest1 * plo + quo,
            plo * phi2 == 0o400000,
    ;
    assert(q / 0o400000 == b);
    assert((2 * q) % 0o1000000 == 2 * low) by {
        assert(2 * q == b * 0o1000000 + 2 * low);
    }
    assert(2 * low == rest1 * (2 * plo) + 2 * quo) by (nonlinear_arith)
        requires
            low == rest1 * plo + quo,
    ;
    let r1 = 2 * r + b;
    assert((2 * r + q / 0o400000) % 0o1000000 == r1);
    let quo1 = 2 * quo + (if r1 >= s { 1int } else { 0int });
    let r2 = if r1 >= s { r1 - s } else { r1 };
    assert(d == (quo1 * s + r2) * phi2 + rest1) by (nonlinear_arith)
        requires
            d == (quo * s + r) * (2 * phi2) + rest,
            rest == b * phi2 + rest1,
            r1 == 2 * r + b,
            quo1 == 2 * quo + (if r1 >= s { 1int } else { 0int }),
            r2 == if r1 >= s { r1 - s } else { r1 },
    ;
}

/// After `n` steps, the shift register holds the remaining `18 - n` low bits
/// of the dividend above `n` quotient bits, and the division identity holds
/// for the bits consumed so far.
spec fn division_progress(d: int, s: int, r: int, q: int, n: nat, quo: int, rest: int) -> bool {
    &&& 0 <= quo < pow2(n)
    &&& 0 <= rest < pow2((18 - n) as nat)
    &&& q == rest * pow2(n) + quo
    &&& d == (quo * s + r) * pow2((18 - n) as nat) + rest
}

proof fn lemma_restore_invariant(d: int, s: int, n: nat)
    requires
        1 <= s < 0o400000,
        0 <= d,
        d / 0o1000000 < s,
        n <= 18,
    ensures
        ({
            let rq = restore_division(d / 0o1000000, d % 0o1000000, s, n);
            &&& 0 <= rq.0 < s
            &&& exists|quo: int, rest: int| #[trigger] division_progress(d, s, rq.0, rq.1, n, quo, rest)
        }),
    decreases n,
{
    lemma2_to64();
    if n == 0 {
        let q0 = d % 0o1000000;
        assert(pow2(18) == 0o1000000);
        assert(d == (d / 0o1000000) * 0o1000000 + q0);
        assert(q0 == q0 * pow2(0) + 0);
        assert(d == (0 * s + d / 0o1000000) * pow2(18) + q0);
        assert(division_progress(d, s, d / 0o1000000, q0, 0, 0, q0));
        let rq = restore_division(d / 0o1000000, d % 0o1000000, s, 0);
        assert(rq == (d / 0o1000000, q0));
        assert(0 <= rq.0 < s);
        assert(division_progress(d, s, rq.0, rq.1, n, 0, q0));
    } else {
        lemma_restore_invariant(d, s, (n - 1) as nat);
        let prev = restore_division(d / 0o1000000, d % 0o1000000, s, (n - 1) as nat);
        let (quo, rest) = choose|quo: int, rest: int|
            #[trigger] division_progress(d, s, prev.0, prev.1, (n - 1) as nat, quo, rest);
        let plo = pow2((n - 1) as nat) as int;
        let phi2 = pow2((18 - n) as nat) as int;
        lemma_pow2_unfold((18 - (n - 1)) as nat);
        lemma_pow2_unfold(n);
        lemma_pow2_adds((n - 1) as nat, (18 - n) as nat);
        assert(pow2(17) == 0o400000);
        lemma_pow2_pos((n - 1) as nat);
        lemma_pow2_pos((18 - n) as nat);
        assert(pow2((18 - (n - 1)) as nat) == 2 * phi2);
        lemma_restore_step_identity(d, s, prev.0, prev.1, quo, rest, plo, phi2);
        let b = rest / phi2;
        let rest1 = rest % phi2;
        let quo1 = 2 * quo + (if (2 * prev.0 + b) >= s { 1int } else { 0int });
        assert(pow2(n) == 2 * plo);
        let rq = restore_division(d / 0o1000000, d % 0o1000000, s, n);
        assert(rq == restore_step(prev.0, prev.1, s));
        assert(division_progress(d, s, rq.0, rq.1, n, quo1, rest1));
        assert(0 <= rq.0 < s);
    }
}

/// Without overflow (the dividend's upper half below the divisor), 18 steps
/// of restoring division leave the remainder and the quotient.
proof fn lemma_restore_divides(d: int, s: int)
    requires
        1 <= s < 0o400000,
        0 <= d,
        d / 0o1000000 < s,
    ensures
        restore_division(d / 0o1000000, d % 0o1000000, s, 18) == (d % s, d / s),
{
    lemma2_to64();
    lemma_restore_invariant(d, s, 18);
    let rq = restore_division(d / 0o1000000, d % 0o1000000, s, 18);
    let (quo, rest) = choose|quo: int, rest: int|
        #[trigger] division_progress(d, s, rq.0, rq.1, 18, quo, rest);
    assert(rest == 0);
    assert(d == quo * s + rq.0);
    vstd::arithmetic::div_mod::lemma_fundamental_div_mod_converse(d, s, quo, rq.0);
}

/// Divides a 36-bit one's complement dividend by an 18-bit divisor with the
/// hardware's restoring algorithm. The quotient is negative when the signs
/// differ; the remainder takes the dividend's sign; a zero divisor gives
/// (0, 0).
pub fn div(dividend: u64, divisor: u32) -> (res: (u32, u32))
    requires
        is_double(dividend as int),
        is_word(divisor as int),
    ensures
        (res.0 as int, res.1 as int) == spec_div(dividend as int, divisor as int),
        is_word(res.0 as int),
        is_word(res.1 as int),
        magnitude_18(divisor as int) != 0 && magnitude_36(dividend as int) / 0o1000000
            < magnitude_18(divisor as int) ==> {
            &&& res.0 == negate_nonzero_18(
                is_negative_36(dividend as int) != is_negative_18(divisor as int),
                magnitude_36(dividend as int) / magnitude_18(divisor as int),
            )
            &&& res.1 == negate_nonzero_18(
                is_negative_36(dividend as int),
                magnitude_36(dividend as int) % magnitude_18(divisor as int),
            )
        },
{
    let div_val = dividend;
    let div_neg = div_val > 0o377777_777777;
    let div_mag = if div_neg { 0o777777_777777 - div_val } else { div_val };

    let sor_val = divisor as u64;
    let sor_neg = sor_val > 0o377777;
    let sor_mag = (if sor_neg { 0o777777 - sor_val } else { sor_val }) as u32;

    if sor_mag == 0 {
        return (0, 0);
    }
    proof {
        lemma_double_bits(div_mag);
    }
    let mut r = (div_mag >> 18) as u32;
    let mut q = (div_mag & 0o777777) as u32;
    let ghost r0 = r as int;
    let ghost q0 = q as int;
    let mut i: u32 = 0;
    while i < 18
        invariant
            0 <= i <= 18,
            1 <= sor_mag < 0o400000,
            r < 0o1000000,
            q < 0o1000000,
            (r as int, q as int) == restore_division(r0, q0, sor_mag as int, i as nat),
        decreases 18 - i,
    {
        let ghost pr = r;
        let ghost pq = q;
        let bit = (q >> 17) & 1;
        proof {
            lemma_word_bits(pq);
        }
        let nr = ((r << 1) | bit) & 0o777777;
        proof {
            lemma_shift_in_bits(pr, bit);
        }
        r = nr;
        let nq = (q << 1) & 0o777777;
        proof {
            lemma_word_arith_bits(pq);
        }
        q = nq;

        if r >= sor_mag {
            r -= sor_mag;
            q |= 1;
        }
        i += 1;
    }
    proof {
        if div_mag / 0o1000000u64 < sor_mag {
            lemma_restore_divides(div_mag as int, sor_mag as int);
        }
    }

    let quot_neg = div_neg ^ sor_neg;
    let rem_neg = div_neg;

    let q = if quot_neg && q != 0 { 0o777777 - q } else { q };
    let r = if rem_neg && r != 0 { 0o777777 - r } else { r };

    (q, r)
}

} // verus!
