//! Fixed-point arithmetic in the Q15 (1.15) and Q31 (1.31) formats.
use vstd::arithmetic::div_mod::*;
use vstd::arithmetic::mul::*;
use vstd::arithmetic::power2::*;
use vstd::prelude::*;

use crate::shift_lemmas::{
    lemma_i32_shl_is_wrapped_mul, lemma_i32_shr_is_floor_div, lemma_i64_shl_is_wrapped_mul,
    lemma_i64_shr_is_floor_div,
};

verus! {

/// Q15 format: 1 sign bit, 15 fractional bits.
pub const Q15_SHIFT: i32 = 15;

/// The largest Q15 value, standing for 1.0.
pub const Q15_ONE: i32 = 32767;

/// Q31 format: 1 sign bit, 31 fractional bits.
pub const Q31_SHIFT: i32 = 31;

/// The largest Q31 value, standing for 1.0.
pub const Q31_ONE: i32 = 2147483647;

/// Shift used for normalised band vectors.
pub const NORM_SHIFT: i32 = 24;

/// `x` clamped to the interval `[lo, hi]`.
pub open spec fn clamp(x: int, lo: int, hi: int) -> int {
    if x > hi {
        hi
    } else if x < lo {
        lo
    } else {
        x
    }
}

/// What `sat16` returns: `x` clamped to the range of `i16`.
pub open spec fn sat16_spec(x: int) -> int {
    clamp(x, i16::MIN as int, i16::MAX as int)
}

/// What `sat32` returns: `x` clamped to the range of `i32`.
pub open spec fn sat32_spec(x: int) -> int {
    clamp(x, i32::MIN as int, i32::MAX as int)
}

/// Saturates a 32-bit value to 16 bits.
pub fn sat16(x: i32) -> (r: i16)
    ensures
        r == sat16_spec(x as int),
{
    if x > 32767 {
        32767
    } else if x < -32768 {
        -32768
    } else {
        x as i16
    }
}

/// Saturates a 64-bit value to 32 bits.
pub fn sat32(x: i64) -> (r: i32)
    ensures
        r == sat32_spec(x as int),
{
    if x > i32::MAX as i64 {
        i32::MAX
    } else if x < i32::MIN as i64 {
        i32::MIN
    } else {
        x as i32
    }
}


/// The Q15 product of `a` and `b` rounded to nearest, ties upwards, before it
/// is narrowed to 16 bits: `floor((a * b + 2^14) / 2^15)`.
pub open spec fn q15_product(a: int, b: int) -> int {
    (a * b + 16384) / 32768
}

/// The Q14 product of `a` and `b` rounded to nearest, ties upwards, before it
/// is narrowed to 16 bits: `floor((a * b + 2^13) / 2^14)`.
pub open spec fn q14_product(a: int, b: int) -> int {
    (a * b + 8192) / 16384
}

/// Multiplies two Q15 values, rounding the result to Q15 (`MULT16_16_Q15`).
///
/// The one product that leaves the Q15 range, `-1.0 * -1.0`, wraps to `-32768`.
pub fn mul_q15(a: i16, b: i16) -> (r: i16)
    ensures
        !(a == i16::MIN && b == i16::MIN) ==> r == q15_product(a as int, b as int),
        a == i16::MIN && b == i16::MIN ==> r == i16::MIN,
{
    proof {
        assert(-0x4000_0000 < a * b <= 0x4000_0000) by (nonlinear_arith);
    }
    let p: i32 = a as i32 * b as i32 + 16384;
    let prod: i32 = p >> 15;
    proof {
        lemma_i32_shr_is_floor_div(p, 15);
        lemma2_to64();
        if a == i16::MIN && b == i16::MIN {
            assert(prod == 32768);
            assert(32768i32 as i16 == -32768i16) by (bit_vector);
        } else {
            assert(a * b <= 0x4000_0000 - 32768) by (nonlinear_arith)
                requires
                    !(a == i16::MIN && b == i16::MIN),
            ;
        }
    }
    prod as i16
}

/// Multiplies two Q15 values into a Q31-scaled 32-bit value, exactly (`MULT16_16`).
pub fn mul16_16(a: i16, b: i16) -> (r: i32)
    ensures
        r == a * b,
{
    proof {
        assert(-0x4000_0000 < a * b <= 0x4000_0000) by (nonlinear_arith);
    }
    a as i32 * b as i32
}

/// Multiplies two Q15 values, rounding the result to Q14 (`MULT16_16_Q14`); the
/// rounded product is narrowed to 16 bits by truncation, as a cast does.
pub fn mul_q14(a: i16, b: i16) -> (r: i16)
    ensures
        r == q14_product(a as int, b as int) as i16,
        i16::MIN <= q14_product(a as int, b as int) <= i16::MAX ==> r == q14_product(
            a as int,
            b as int,
        ),
{
    proof {
        assert(-0x4000_0000 < a * b <= 0x4000_0000) by (nonlinear_arith);
    }
    let p: i32 = a as i32 * b as i32 + 8192;
    proof {
        lemma_i32_shr_is_floor_div(p, 14);
        lemma2_to64();
    }
    (p >> 14) as i16
}

/// Multiplies a 16-bit value by a 32-bit value and keeps the high part: the
/// product divided by `2^16`, rounded down (`MULT16_32_Q16`).
pub fn mul16_32_q16(a: i16, b: i32) -> (r: i32)
    ensures
        r == (a * b) / 65536,
{
    proof {
        assert(-0x4000_0000_0000 <= a * b <= 0x4000_0000_0000) by (nonlinear_arith);
    }
    let p: i64 = a as i64 * b as i64;
    proof {
        lemma_i64_shr_is_floor_div(p, 16);
        lemma2_to64();
        assert(-0x4000_0000 <= p / 65536 <= 0x4000_0000);
    }
    (p >> 16) as i32
}


/// What `shl32` returns: for a shift of at most 0, `a` shifted right by `-shift`
/// (floor division by `2^-shift`); for a positive shift, `a * 2^shift`
/// saturated to 32 bits.
pub open spec fn shl32_spec(a: int, shift: int) -> int {
    if shift <= 0 {
        a / (pow2((-shift) as nat) as int)
    } else {
        sat32_spec(a * pow2(shift as nat))
    }
}

/// What `shr32` returns: for a shift of at most 0, `a * 2^-shift` wrapped to
/// 32 bits, as a left shift does; for a positive shift, `a` divided by
/// `2^shift`, rounded down.
pub open spec fn shr32_spec(a: int, shift: int) -> int {
    if shift <= 0 {
        ((a * pow2((-shift) as nat)) as i32) as int
    } else {
        a / (pow2(shift as nat) as int)
    }
}

/// What `pshr32` returns: for a shift of at most 0, the same as `shr32`; for a
/// positive shift, `a / 2^shift` rounded to nearest, ties upwards.
pub open spec fn pshr32_spec(a: int, shift: int) -> int {
    if shift <= 0 {
        ((a * pow2((-shift) as nat)) as i32) as int
    } else {
        (a + pow2((shift - 1) as nat)) / (pow2(shift as nat) as int)
    }
}

/// Shifts left with saturation (`SHL32`); a shift of at most 0 shifts right.
///
/// Any nonzero value shifted left by 32 or more already lies outside the
/// 32-bit range, so the shift is capped at 32 before it is applied to the
/// 64-bit intermediate, which then cannot wrap.
pub fn shl32(a: i32, shift: i32) -> (r: i32)
    requires
        -32 < shift,
    ensures
        r == shl32_spec(a as int, shift as int),
{
    if shift <= 0 {
        let k: u32 = (-shift) as u32;
        proof {
            lemma_i32_shr_is_floor_div(a, k);
        }
        a >> k
    } else {
        let k: u32 = if shift > 32 {
            32
        } else {
            shift as u32
        };
        let result: i64 = (a as i64) << k;
        proof {
            lemma_i64_shl_is_wrapped_mul(a as i64, k);
            lemma_shl_product_fits_i64(a, k);
            if shift > 32 {
                lemma_saturated_beyond_32(a, shift as nat);
            }
        }
        sat32(result)
    }
}

/// For `0 < k <= 32`, `a * 2^k` fits in 64 bits.
proof fn lemma_shl_product_fits_i64(a: i32, k: u32)
    requires
        0 < k <= 32,
    ensures
        i64::MIN <= a * pow2(k as nat) <= i64::MAX,
{
    lemma2_to64();
    lemma_pow2_pos(k as nat);
    if k < 32 {
        lemma_pow2_strictly_increases(k as nat, 32);
    }
    let p = pow2(k as nat);
    assert(i64::MIN <= a * p <= i64::MAX) by (nonlinear_arith)
        requires
            0 < p <= 0x1_0000_0000,
            i32::MIN <= a <= i32::MAX,
    ;
}

/// Shifting by more than 32 saturates exactly as shifting by 32 does: a
/// nonzero value is already out of the 32-bit range at 32.
proof fn lemma_saturated_beyond_32(a: i32, s: nat)
    requires
        s > 32,
    ensures
        sat32_spec(a * pow2(s)) == sat32_spec(a * pow2(32)),
{
    lemma2_to64();
    lemma_pow2_strictly_increases(32, s);
    let p = pow2(s);
    let q = pow2(32);
    if a > 0 {
        assert(a * p >= p && a * q >= q) by (nonlinear_arith)
            requires
                a > 0,
                p > 0,
                q > 0,
        ;
    } else if a < 0 {
        assert(a * p <= -p && a * q <= -q) by (nonlinear_arith)
            requires
                a < 0,
                p > 0,
                q > 0,
        ;
    } else {
        lemma_mul_basics(p as int);
        lemma_mul_basics(q as int);
    }
}

/// Shifts right arithmetically (`SHR32`); a shift of at most 0 shifts left.
pub fn shr32(a: i32, shift: i32) -> (r: i32)
    requires
        -32 < shift < 32,
    ensures
        r == shr32_spec(a as int, shift as int),
{
    if shift <= 0 {
        let k: u32 = (-shift) as u32;
        proof {
            lemma_i32_shl_is_wrapped_mul(a, k);
        }
        a << k
    } else {
        let k: u32 = shift as u32;
        proof {
            lemma_i32_shr_is_floor_div(a, k);
        }
        a >> k
    }
}


/// Shifts right with rounding to nearest, ties upwards (`PSHR32`); a shift of
/// at most 0 shifts left.
pub fn pshr32(a: i32, shift: i32) -> (r: i32)
    requires
        -32 < shift < 32,
        shift > 0 ==> a + pow2((shift - 1) as nat) <= i32::MAX,
    ensures
        r == pshr32_spec(a as int, shift as int),
{
    if shift <= 0 {
        let k: u32 = (-shift) as u32;
        proof {
            lemma_i32_shl_is_wrapped_mul(a, k);
        }
        a << k
    } else {
        let k: u32 = shift as u32;
        proof {
            lemma_i32_shl_is_wrapped_mul(1, (k - 1) as u32);
            lemma_pow2_pos((k - 1) as nat);
            lemma2_to64();
            if k - 1 < 31 {
                lemma_pow2_strictly_increases((k - 1) as nat, 31);
            }
        }
        let half: i32 = 1i32 << (k - 1);
        let sum: i32 = a + half;
        proof {
            lemma_i32_shr_is_floor_div(sum, k);
        }
        sum >> k
    }
}

/// Absolute value of a 16-bit value.
pub fn abs16(x: i16) -> (r: i16)
    requires
        x != i16::MIN,
    ensures
        r == (if x < 0 { -x } else { x as int }),
{
    if x < 0 {
        -x
    } else {
        x
    }
}

/// Absolute value of a 32-bit value.
pub fn abs32(x: i32) -> (r: i32)
    requires
        x != i32::MIN,
    ensures
        r == (if x < 0 { -x } else { x as int }),
{
    if x < 0 {
        -x
    } else {
        x
    }
}

/// Multiply-accumulate: `acc + a * b`, with the product exact (`MAC16_16`).
pub fn mac_q15(acc: i32, a: i16, b: i16) -> (r: i32)
    requires
        i32::MIN <= acc + a * b <= i32::MAX,
    ensures
        r == acc + a * b,
{
    acc + mul16_16(a, b)
}

/// Squares a Q15 value into a Q31-scaled 32-bit value, exactly.
pub fn sqr_q15(a: i16) -> (r: i32)
    ensures
        r == a * a,
{
    let a_i32: i32 = a as i32;
    proof {
        assert(0 <= a * a <= 0x4000_0000) by (nonlinear_arith);
    }
    a_i32 * a_i32
}


/// Q15 reciprocal of a Q15 value. The reciprocal of a value in `(0, 1]` is at
/// least 1, which Q15 cannot hold, so every positive input saturates to
/// `Q15_ONE`; inputs of at most 0 give `Q15_ONE` as well.
pub fn recip_q15(x: i16) -> (r: i16)
    ensures
        r == (if x <= 0 {
            Q15_ONE as int
        } else {
            sat16_spec((Q15_ONE * Q15_ONE) as int / x as int)
        }),
        r == Q15_ONE,
{
    if x <= 0 {
        return Q15_ONE as i16;
    }
    let q: i32 = (Q15_ONE * Q15_ONE) / (x as i32);
    proof {
        assert(1073676289int / (x as int) >= 32767) by (nonlinear_arith)
            requires
                1 <= x <= 32767,
        ;
    }
    sat16(q)
}


/// Sum of the squares of the first `n` entries of `s`.
pub open spec fn sum_sq_prefix(s: Seq<i16>, n: int) -> int
    decreases n,
{
    if n <= 0 {
        0
    } else {
        sum_sq_prefix(s, n - 1) + s[n - 1] * s[n - 1]
    }
}

/// Sum of the squares of the entries of `s`.
pub open spec fn sum_sq(s: Seq<i16>) -> int {
    sum_sq_prefix(s, s.len() as int)
}

/// Sum of `a[i] * b[i]` over the first `n` indices.
pub open spec fn dot_prefix(a: Seq<i16>, b: Seq<i16>, n: int) -> int
    decreases n,
{
    if n <= 0 {
        0
    } else {
        dot_prefix(a, b, n - 1) + a[n - 1] * b[n - 1]
    }
}

/// Dot product of two sequences of the same length.
pub open spec fn dot(a: Seq<i16>, b: Seq<i16>) -> int {
    dot_prefix(a, b, a.len() as int)
}

/// Partial sums of squares are nonnegative and grow with the prefix.
proof fn lemma_sum_sq_prefix_monotone(s: Seq<i16>, m: int, n: int)
    requires
        0 <= m <= n,
    ensures
        0 <= sum_sq_prefix(s, m) <= sum_sq_prefix(s, n),
    decreases n,
{
    if n > m {
        lemma_sum_sq_prefix_monotone(s, m, n - 1);
        let v = s[n - 1];
        assert(v * v >= 0) by (nonlinear_arith);
    } else if m > 0 {
        lemma_sum_sq_prefix_monotone(s, m - 1, m - 1);
        let v = s[m - 1];
        assert(v * v >= 0) by (nonlinear_arith);
    }
}

/// Sum of squares of Q15 values, scaled down by `2^15` (rounded down) and
/// narrowed to 32 bits by truncation, as a cast does.
pub fn sum_sqr_q15(x: &[i16]) -> (r: i32)
    requires
        sum_sq(x@) <= i64::MAX,
    ensures
        r == (sum_sq(x@) / 32768) as i32,
        sum_sq(x@) / 32768 <= i32::MAX ==> r == sum_sq(x@) / 32768,
{
    let mut sum: i64 = 0;
    let mut i: usize = 0;
    while i < x.len()
        invariant
            0 <= i <= x@.len(),
            sum == sum_sq_prefix(x@, i as int),
            sum_sq(x@) <= i64::MAX,
        decreases x@.len() - i,
    {
        let v: i32 = x[i] as i32;
        proof {
            lemma_sum_sq_prefix_monotone(x@, i + 1, x@.len() as int);
            lemma_sum_sq_prefix_monotone(x@, i as int, i as int);
            assert(0 <= v * v <= 0x4000_0000) by (nonlinear_arith)
                requires
                    -32768 <= v <= 32767,
            ;
        }
        sum = sum + (v * v) as i64;
        i = i + 1;
    }
    proof {
        lemma_sum_sq_prefix_monotone(x@, 0, x@.len() as int);
        lemma_i64_shr_is_floor_div(sum, 15);
        lemma2_to64();
    }
    (sum >> 15) as i32
}

/// Dot product of two Q15 sequences, scaled down by `2^15` (rounded down) and
/// narrowed to 32 bits by truncation, as a cast does.
pub fn dot_product_q15(a: &[i16], b: &[i16]) -> (r: i32)
    requires
        a@.len() == b@.len(),
        forall|n: int|
            0 <= n <= a@.len() ==> i64::MIN <= #[trigger] dot_prefix(a@, b@, n) <= i64::MAX,
    ensures
        r == (dot(a@, b@) / 32768) as i32,
        i32::MIN <= dot(a@, b@) / 32768 <= i32::MAX ==> r == dot(a@, b@) / 32768,
{
    let mut sum: i64 = 0;
    let mut i: usize = 0;
    while i < a.len()
        invariant
            0 <= i <= a@.len(),
            a@.len() == b@.len(),
            sum == dot_prefix(a@, b@, i as int),
            forall|n: int|
                0 <= n <= a@.len() ==> i64::MIN <= #[trigger] dot_prefix(a@, b@, n) <= i64::MAX,
        decreases a@.len() - i,
    {
        let ai: i32 = a[i] as i32;
        let bi: i32 = b[i] as i32;
        proof {
            assert(-0x4000_0000 <= ai * bi <= 0x4000_0000) by (nonlinear_arith)
                requires
                    -32768 <= ai <= 32767,
                    -32768 <= bi <= 32767,
            ;
        }
        let p: i32 = ai * bi;
        proof {
            assert(dot_prefix(a@, b@, i + 1) == dot_prefix(a@, b@, i as int) + a@[i as int] * b@[i as int]);
            assert(i64::MIN <= dot_prefix(a@, b@, i + 1) <= i64::MAX);
        }
        sum = sum + p as i64;
        i = i + 1;
    }
    proof {
        lemma_i64_shr_is_floor_div(sum, 15);
        lemma2_to64();
    }
    (sum >> 15) as i32
}


/// The absolute value of `v`.
pub open spec fn abs_spec(v: int) -> int {
    if v < 0 {
        -v
    } else {
        v
    }
}

/// Largest absolute value among the entries of a slice; 0 for an empty slice.
pub fn maxabs16(x: &[i16]) -> (r: i16)
    requires
        forall|i: int| 0 <= i < x@.len() ==> x@[i] != i16::MIN,
    ensures
        r >= 0,
        forall|i: int| 0 <= i < x@.len() ==> abs_spec(x@[i] as int) <= r,
        r == 0 || exists|i: int| 0 <= i < x@.len() && abs_spec(x@[i] as int) == r,
{
    let mut max_val: i16 = 0;
    let mut min_val: i16 = 0;
    let mut i: usize = 0;
    while i < x.len()
        invariant
            0 <= i <= x@.len(),
            forall|j: int| 0 <= j < x@.len() ==> x@[j] != i16::MIN,
            0 <= max_val,
            i16::MIN < min_val <= 0,
            forall|j: int| 0 <= j < i ==> min_val <= #[trigger] x@[j] <= max_val,
            max_val == 0 || exists|j: int| 0 <= j < i && x@[j] == max_val,
            min_val == 0 || exists|j: int| 0 <= j < i && x@[j] == min_val,
        decreases x@.len() - i,
    {
        let v: i16 = x[i];
        if v > max_val {
            max_val = v;
        }
        if v < min_val {
            min_val = v;
        }
        i = i + 1;
    }
    if max_val > -min_val {
        max_val
    } else {
        -min_val
    }
}


/// Saturation to 16 bits is monotone, lands in the `i16` range, leaves values
/// of that range unchanged, and so applying it twice is applying it once.
pub proof fn law_sat16(x: int, y: int)
    ensures
        i16::MIN <= sat16_spec(x) <= i16::MAX,
        i16::MIN <= x <= i16::MAX ==> sat16_spec(x) == x,
        sat16_spec(sat16_spec(x)) == sat16_spec(x),
        x <= y ==> sat16_spec(x) <= sat16_spec(y),
{
}

/// Saturation to 32 bits is monotone, lands in the `i32` range, leaves values
/// of that range unchanged, and so applying it twice is applying it once.
pub proof fn law_sat32(x: int, y: int)
    ensures
        i32::MIN <= sat32_spec(x) <= i32::MAX,
        i32::MIN <= x <= i32::MAX ==> sat32_spec(x) == x,
        sat32_spec(sat32_spec(x)) == sat32_spec(x),
        x <= y ==> sat32_spec(x) <= sat32_spec(y),
{
}

/// The Q15 product is the exact product `a * b / 2^15` rounded to nearest: it
/// lies within half a Q15 step of it, and it does not depend on the order of
/// the factors.
pub proof fn law_mul_q15_rounding(a: i16, b: i16)
    ensures
        q15_product(a as int, b as int) * 32768 - 16384 <= a * b,
        a * b < q15_product(a as int, b as int) * 32768 + 16384,
        q15_product(a as int, b as int) == q15_product(b as int, a as int),
{
    lemma_fundamental_div_mod(a * b + 16384, 32768);
    lemma_mul_is_commutative(a as int, b as int);
}

/// `shl32` and `shr32` shift in opposite directions. Right shifts agree: a
/// shift by `-s` in `shl32` is a shift by `s` in `shr32`. Left shifts agree
/// wherever the product fits in 32 bits, where neither saturation (in
/// `shl32`) nor wrapping (in `shr32`) takes effect: both give `a * 2^s`.
pub proof fn law_shl32_shr32_opposite(a: i32, s: i32)
    requires
        0 <= s < 32,
    ensures
        shl32_spec(a as int, -s) == shr32_spec(a as int, s as int),
        i32::MIN <= a * pow2(s as nat) <= i32::MAX ==> shl32_spec(a as int, s as int) == a
            * pow2(s as nat) && shr32_spec(a as int, -s) == a * pow2(s as nat),
{
    lemma2_to64();
    if s == 0 {
        assert(pow2(((-0int) as nat)) == 1);
        assert((a as int) / 1int == a);
        assert(shl32_spec(a as int, 0) == a);
        assert(shr32_spec(a as int, 0) == a);
    }
}

/// Shifting left by `s` and then right by `s` gives the value back whenever
/// the left shift does not overflow.
pub proof fn law_shr32_undoes_left_shift(a: i32, s: i32)
    requires
        0 <= s < 32,
        i32::MIN <= a * pow2(s as nat) <= i32::MAX,
    ensures
        shr32_spec(shr32_spec(a as int, -s), s as int) == a,
{
    lemma2_to64();
    let p = pow2(s as nat);
    lemma_pow2_pos(s as nat);
    assert(shr32_spec(a as int, -s) == a * p);
    if s > 0 {
        lemma_div_multiples_vanish(a as int, p as int);
        lemma_mul_is_commutative(a as int, p as int);
        assert((a * p) / (p as int) == a);
        assert(shr32_spec(a * p, s as int) == (a * p) / (p as int));
    } else {
        assert(p == 1);
        lemma_mul_basics(a as int);
        assert(shr32_spec(a as int, 0) == a);
    }
}

/// For a positive shift, `pshr32` rounds `a / 2^s` to nearest: the result
/// times `2^s` lies within `2^(s-1)` of `a`.
pub proof fn law_pshr32_rounds_to_nearest(a: i32, s: i32)
    requires
        0 < s < 32,
    ensures
        pshr32_spec(a as int, s as int) * pow2(s as nat) - pow2((s - 1) as nat) <= a,
        a < pshr32_spec(a as int, s as int) * pow2(s as nat) + pow2((s - 1) as nat),
{
    let h = pow2((s - 1) as nat);
    let p = pow2(s as nat);
    lemma_pow2_pos(s as nat);
    lemma_pow2_adds((s - 1) as nat, 1);
    lemma2_to64();
    assert(p == 2 * h);
    lemma_fundamental_div_mod(a + h, p as int);
    lemma_mul_is_commutative(p as int, (a + h) / (p as int));
}

/// The sum of squares of a sequence is its dot product with itself, so
/// `sum_sqr_q15(x)` and `dot_product_q15(x, x)` agree. The requirement of
/// either call implies that of the other: with all products nonnegative, the
/// partial sums stay between 0 and the total.
pub proof fn law_sum_sq_is_self_dot(s: Seq<i16>)
    ensures
        sum_sq(s) == dot(s, s),
        sum_sq(s) <= i64::MAX <==> forall|n: int|
            0 <= n <= s.len() ==> i64::MIN <= #[trigger] dot_prefix(s, s, n) <= i64::MAX,
{
    lemma_sum_sq_prefix_is_dot_prefix(s, s.len() as int);
    if sum_sq(s) <= i64::MAX {
        assert forall|n: int| 0 <= n <= s.len() implies i64::MIN <= #[trigger] dot_prefix(
            s,
            s,
            n,
        ) <= i64::MAX by {
            lemma_sum_sq_prefix_is_dot_prefix(s, n);
            lemma_sum_sq_prefix_monotone(s, n, s.len() as int);
        }
    }
    if forall|n: int| 0 <= n <= s.len() ==> i64::MIN <= #[trigger] dot_prefix(s, s, n) <= i64::MAX {
        assert(i64::MIN <= dot_prefix(s, s, s.len() as int) <= i64::MAX);
    }
}

proof fn lemma_sum_sq_prefix_is_dot_prefix(s: Seq<i16>, n: int)
    ensures
        sum_sq_prefix(s, n) == dot_prefix(s, s, n),
    decreases n,
{
    if n > 0 {
        lemma_sum_sq_prefix_is_dot_prefix(s, n - 1);
    }
}

/// The dot product does not depend on the order of its arguments, and neither
/// does the requirement of `dot_product_q15`: every partial sum is the same
/// either way, so `dot_product_q15(a, b) == dot_product_q15(b, a)`.
pub proof fn law_dot_commutative(a: Seq<i16>, b: Seq<i16>)
    requires
        a.len() == b.len(),
    ensures
        dot(a, b) == dot(b, a),
        forall|n: int| #[trigger] dot_prefix(a, b, n) == dot_prefix(b, a, n),
{
    assert forall|n: int| #[trigger] dot_prefix(a, b, n) == dot_prefix(b, a, n) by {
        lemma_dot_prefix_commutative(a, b, n);
    }
}

/// Changing the sign of any entries leaves the sum of squares unchanged.
pub proof fn law_sum_sq_sign_invariant(s: Seq<i16>, t: Seq<i16>)
    requires
        s.len() == t.len(),
        forall|i: int| 0 <= i < s.len() ==> t[i] == s[i] || t[i] == -s[i],
    ensures
        sum_sq(t) == sum_sq(s),
{
    lemma_sum_sq_prefix_sign_invariant(s, t, s.len() as int);
}

proof fn lemma_sum_sq_prefix_sign_invariant(s: Seq<i16>, t: Seq<i16>, n: int)
    requires
        n <= s.len() == t.len(),
        forall|i: int| 0 <= i < s.len() ==> t[i] == s[i] || t[i] == -s[i],
    ensures
        sum_sq_prefix(t, n) == sum_sq_prefix(s, n),
    decreases n,
{
    if n > 0 {
        lemma_sum_sq_prefix_sign_invariant(s, t, n - 1);
        let v = s[n - 1];
        let w = t[n - 1];
        assert(w * w == v * v) by (nonlinear_arith)
            requires
                w == v || w == -v,
        ;
    }
}

/// Reordering the entries leaves the sum of squares unchanged: two sequences
/// with the same entries, counted with multiplicity, have the same sum.
pub proof fn law_sum_sq_permutation_invariant(s: Seq<i16>, t: Seq<i16>)
    requires
        s.to_multiset() == t.to_multiset(),
    ensures
        sum_sq(s) == sum_sq(t),
    decreases s.len(),
{
    broadcast use vstd::seq_lib::group_to_multiset_ensures;

    if s.len() == 0 {
        assert(s.to_multiset().len() == 0);
        assert(t.to_multiset().len() == t.len());
        assert(t.len() == 0);
        assert(sum_sq(t) == 0);
    } else {
        let last = s.len() - 1;
        let x = s[last];
        assert(s.to_multiset().count(x) > 0);
        assert(t.contains(x));
        let j = choose|j: int| 0 <= j < t.len() && t[j] == x;
        assert(s.drop_last() =~= s.remove(last));
        assert(s.remove(last).to_multiset() == s.to_multiset().remove(x));
        assert(t.remove(j).to_multiset() == t.to_multiset().remove(x));
        law_sum_sq_permutation_invariant(s.remove(last), t.remove(j));
        lemma_sum_sq_remove(s, last);
        lemma_sum_sq_remove(t, j);
    }
}

/// Two sequences that agree on their first `n` entries have the same sum of
/// squares over them.
proof fn lemma_sum_sq_prefix_agree(s: Seq<i16>, t: Seq<i16>, n: int)
    requires
        n <= s.len(),
        n <= t.len(),
        forall|i: int| 0 <= i < n ==> s[i] == t[i],
    ensures
        sum_sq_prefix(s, n) == sum_sq_prefix(t, n),
    decreases n,
{
    if n > 0 {
        lemma_sum_sq_prefix_agree(s, t, n - 1);
    }
}

/// Removing entry `j` takes its square off the sum of squares.
proof fn lemma_sum_sq_remove(t: Seq<i16>, j: int)
    requires
        0 <= j < t.len(),
    ensures
        sum_sq(t) == sum_sq(t.remove(j)) + t[j] * t[j],
    decreases t.len(),
{
    let len = t.len() as int;
    if j == len - 1 {
        lemma_sum_sq_prefix_agree(t, t.remove(j), len - 1);
    } else {
        let u = t.drop_last();
        assert(u.remove(j) =~= t.remove(j).drop_last());
        lemma_sum_sq_remove(u, j);
        lemma_sum_sq_prefix_agree(t, u, len - 1);
        lemma_sum_sq_prefix_agree(t.remove(j), u.remove(j), len - 2);
        assert(t.remove(j)[len - 2] == t[len - 1]);
    }
}

proof fn lemma_dot_prefix_commutative(a: Seq<i16>, b: Seq<i16>, n: int)
    ensures
        dot_prefix(a, b, n) == dot_prefix(b, a, n),
    decreases n,
{
    if n > 0 {
        lemma_dot_prefix_commutative(a, b, n - 1);
        lemma_mul_is_commutative(a[n - 1] as int, b[n - 1] as int);
    }
}

} // verus!
