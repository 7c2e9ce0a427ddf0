//! Shifts of signed integers as multiplication and floor division by powers of two.
use vstd::arithmetic::div_mod::*;
use vstd::arithmetic::power2::*;
use vstd::bits::*;
use vstd::prelude::*;

verus! {

/// For `s < 32`, `1u64 << s` is `2^s`.
proof fn lemma_one_shl_u64(s: u32)
    requires
        s < 32,
    ensures
        (1u64 << s) as int == pow2(s as nat),
        pow2(s as nat) <= 0x8000_0000,
{
    lemma_u64_pow2_no_overflow(s as nat);
    lemma_u64_shl_is_mul(1u64, s as u64);
    lemma_pow2_strictly_increases(s as nat, 32) ;
    lemma2_to64();
    assert((1u64 << s) == (1u64 << (s as u64))) by (bit_vector);
    if s < 31 { lemma_pow2_strictly_increases(s as nat, 31); }
}

/// Arithmetic right shift of an `i32` is floor division by a power of two.
pub proof fn lemma_i32_shr_is_floor_div(x: i32, s: u32)
    requires
        s < 32,
    ensures
        (x >> s) as int == x as int / (pow2(s as nat) as int),
{
    lemma_one_shl_u64(s);
    let p: u64 = 1u64 << s;
    let q: i32 = x >> s;
    assert((q as int) * (p as int) <= x as int && (x as int) < (q as int) * (p as int) + (p as int))
        by (bit_vector)
        requires
            s < 32,
            p == 1u64 << s,
            q == x >> s,
    ;
    lemma_fundamental_div_mod_converse(x as int, p as int, q as int, x - q * p);
}


/// For `s < 64`, `1u64 << s` is `2^s`.
proof fn lemma_one_shl_u64_wide(s: u32)
    requires
        s < 64,
    ensures
        (1u64 << s) as int == pow2(s as nat),
{
    lemma_u64_pow2_no_overflow(s as nat);
    lemma_u64_shl_is_mul(1u64, s as u64);
    assert((1u64 << s) == (1u64 << (s as u64))) by (bit_vector);
}

/// Arithmetic right shift of an `i64` is floor division by a power of two.
pub proof fn lemma_i64_shr_is_floor_div(x: i64, s: u32)
    requires
        s < 64,
    ensures
        (x >> s) as int == x as int / (pow2(s as nat) as int),
{
    lemma_one_shl_u64_wide(s);
    let p: u64 = 1u64 << s;
    let q: i64 = x >> s;
    assert((q as int) * (p as int) <= x as int && (x as int) < (q as int) * (p as int) + (p as int))
        by (bit_vector)
        requires
            s < 64,
            p == 1u64 << s,
            q == x >> s,
    ;
    lemma_fundamental_div_mod_converse(x as int, p as int, q as int, x - q * p);
}

/// Left shift of an `i32` is multiplication by a power of two, wrapped to 32 bits.
pub proof fn lemma_i32_shl_is_wrapped_mul(x: i32, s: u32)
    requires
        s < 32,
    ensures
        (x << s) == ((x as int) * pow2(s as nat)) as i32,
{
    lemma_one_shl_u64(s);
    let p: u64 = 1u64 << s;
    assert((x << s) == ((x as int) * (p as int)) as i32)
        by (bit_vector)
        requires
            s < 32,
            p == 1u64 << s,
    ;
}

/// Left shift of an `i64` is multiplication by a power of two, wrapped to 64 bits.
pub proof fn lemma_i64_shl_is_wrapped_mul(x: i64, s: u32)
    requires
        s < 64,
    ensures
        (x << s) == ((x as int) * pow2(s as nat)) as i64,
{
    lemma_one_shl_u64_wide(s);
    let p: u64 = 1u64 << s;
    assert((x << s) == ((x as int) * (p as int)) as i64)
        by (bit_vector)
        requires
            s < 64,
            p == 1u64 << s,
    ;
}

} // verus!
