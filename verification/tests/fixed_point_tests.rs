use opus_rs::fixed_point::{
    abs16, abs32, dot_product_q15, mac_q15, maxabs16, mul16_16, mul16_32_q16, mul_q14, mul_q15,
    pshr32, recip_q15, sat16, sat32, shl32, shr32, sqr_q15, sum_sqr_q15, Q15_ONE, Q15_SHIFT,
    Q31_ONE, Q31_SHIFT, NORM_SHIFT,
};

#[test]
fn test_sat16() {
    assert_eq!(sat16(1000), 1000);
    assert_eq!(sat16(40000), 32767);
    assert_eq!(sat16(-40000), -32768);
}

#[test]
fn test_mul_q15() {
    // 0.5 * 0.5 = 0.25
    let a = sat16((0.5f32 * 32767.0) as i32);
    let b = sat16((0.5f32 * 32767.0) as i32);
    let c = mul_q15(a, b);
    let c_f = c as f32 / 32767.0;
    assert!((c_f - 0.25).abs() < 0.001);
}

#[test]
fn constants_have_their_q_format_values() {
    assert_eq!(Q15_SHIFT, 15);
    assert_eq!(Q15_ONE, 32767);
    assert_eq!(Q31_SHIFT, 31);
    assert_eq!(Q31_ONE, i32::MAX);
    assert_eq!(NORM_SHIFT, 24);
}

#[test]
fn sat16_edges() {
    assert_eq!(sat16(32767), 32767);
    assert_eq!(sat16(32768), 32767);
    assert_eq!(sat16(-32768), -32768);
    assert_eq!(sat16(-32769), -32768);
    assert_eq!(sat16(i32::MAX), 32767);
    assert_eq!(sat16(i32::MIN), -32768);
    assert_eq!(sat16(0), 0);
}

#[test]
fn sat16_is_idempotent_and_monotone() {
    for x in [-70000, -32769, -5, 0, 7, 32767, 99999] {
        let once = sat16(x);
        assert_eq!(sat16(once as i32), once);
        assert!(sat16(x) <= sat16(x + 1));
    }
}

#[test]
fn sat32_edges() {
    assert_eq!(sat32(5), 5);
    assert_eq!(sat32(i32::MAX as i64), i32::MAX);
    assert_eq!(sat32(i32::MAX as i64 + 1), i32::MAX);
    assert_eq!(sat32(i32::MIN as i64), i32::MIN);
    assert_eq!(sat32(i32::MIN as i64 - 1), i32::MIN);
    assert_eq!(sat32(i64::MAX), i32::MAX);
    assert_eq!(sat32(i64::MIN), i32::MIN);
}

#[test]
fn mul_q15_exact_values() {
    // 0.5 * 0.5 with 0.5 = 16384: (2^28 + 2^14) >> 15 = 8192
    assert_eq!(mul_q15(16384, 16384), 8192);
    assert_eq!(mul_q15(32767, 32767), 32766);
    assert_eq!(mul_q15(-32768, 32767), -32767);
    assert_eq!(mul_q15(3, 5), 0);
    // rounding: 1 * 16384 = 16384, +16384 = 32768 -> 1
    assert_eq!(mul_q15(1, 16384), 1);
    assert_eq!(mul_q15(-1, 16384), 0);
    // the single product outside Q15 wraps
    assert_eq!(mul_q15(-32768, -32768), -32768);
    // order of factors does not matter
    assert_eq!(mul_q15(1234, -567), mul_q15(-567, 1234));
}

#[test]
fn mul_q15_rounds_to_nearest() {
    for &(a, b) in &[(100i16, 200i16), (-32768, 12345), (777, -31000), (32767, 1)] {
        let r = mul_q15(a, b) as i64;
        let p = a as i64 * b as i64;
        assert!(r * 32768 - 16384 <= p && p < r * 32768 + 16384);
    }
}

#[test]
fn mul16_16_exact() {
    assert_eq!(mul16_16(-32768, -32768), 1 << 30);
    assert_eq!(mul16_16(300, -7), -2100);
}

#[test]
fn mul_q14_exact_and_wrapping() {
    assert_eq!(mul_q14(16384, 16384), 16384);
    assert_eq!(mul_q14(3, 5), 0);
    // (32767^2 + 8192) >> 14 = 65532, which a cast to i16 wraps to -4
    assert_eq!(mul_q14(32767, 32767), -4);
    assert_eq!(mul_q14(-16384, 16384), -16384);
}

#[test]
fn mul16_32_q16_floor() {
    assert_eq!(mul16_32_q16(2, 65536), 2);
    assert_eq!(mul16_32_q16(1, 65535), 0);
    assert_eq!(mul16_32_q16(-1, 1), -1);
    assert_eq!(mul16_32_q16(-32768, i32::MIN), 1 << 30);
    assert_eq!(mul16_32_q16(32767, i32::MAX), 1073709055);
}

#[test]
fn shl32_saturates_and_shifts_right_for_nonpositive_shift() {
    assert_eq!(shl32(1, 4), 16);
    assert_eq!(shl32(1 << 30, 1), i32::MAX);
    assert_eq!(shl32(-(1 << 30), 1), i32::MIN);
    assert_eq!(shl32(-(1 << 30) - 1, 1), i32::MIN);
    assert_eq!(shl32(3, 32), i32::MAX);
    assert_eq!(shl32(-3, 0), -3);
    assert_eq!(shl32(-3, -1), -2);
    assert_eq!(shl32(100, -3), 12);
    assert_eq!(shl32(i32::MIN, -31), -1);
    // shifts of 32 or more saturate every nonzero value
    assert_eq!(shl32(1, 63), i32::MAX);
    assert_eq!(shl32(2, 63), i32::MAX);
    assert_eq!(shl32(-1, 33), i32::MIN);
    assert_eq!(shl32(1, 64), i32::MAX);
    assert_eq!(shl32(-7, 1000), i32::MIN);
    assert_eq!(shl32(5, i32::MAX), i32::MAX);
    assert_eq!(shl32(0, 100), 0);
}

#[test]
fn shr32_floor_and_wrapping_left() {
    assert_eq!(shr32(17, 2), 4);
    assert_eq!(shr32(-17, 2), -5);
    assert_eq!(shr32(-1, 31), -1);
    assert_eq!(shr32(5, 0), 5);
    assert_eq!(shr32(5, -2), 20);
    assert_eq!(shr32(1 << 30, -1), i32::MIN);
    assert_eq!(shr32(3, -31), i32::MIN);
}

#[test]
fn shl32_and_shr32_opposite() {
    for a in [-1000, -1, 0, 1, 99999, i32::MIN, i32::MAX] {
        for s in 0..32 {
            assert_eq!(shl32(a, -s), shr32(a, s));
        }
    }
    assert_eq!(shr32(shr32(1234, -10), 10), 1234);
    assert_eq!(shl32(1234, 10), shr32(1234, -10));
}

#[test]
fn pshr32_rounds_to_nearest() {
    assert_eq!(pshr32(5, 1), 3);
    assert_eq!(pshr32(4, 1), 2);
    assert_eq!(pshr32(-5, 1), -2);
    assert_eq!(pshr32(-6, 1), -3);
    assert_eq!(pshr32(23, 3), 3);
    assert_eq!(pshr32(20, 3), 3);
    assert_eq!(pshr32(19, 3), 2);
    assert_eq!(pshr32(7, 0), 7);
    assert_eq!(pshr32(7, -3), 56);
    assert_eq!(pshr32(i32::MIN, 31), -1);
    for s in 1..31 {
        let a = 123456789;
        let r = pshr32(a, s) as i64;
        let p = 1i64 << s;
        let h = p / 2;
        assert!(r * p - h <= a as i64 && (a as i64) < r * p + h);
    }
}

#[test]
fn abs_values() {
    assert_eq!(abs16(-5), 5);
    assert_eq!(abs16(5), 5);
    assert_eq!(abs16(0), 0);
    assert_eq!(abs16(-32767), 32767);
    assert_eq!(abs32(-7), 7);
    assert_eq!(abs32(i32::MAX), i32::MAX);
    assert_eq!(abs32(-i32::MAX), i32::MAX);
}

#[test]
fn mac_and_sqr() {
    assert_eq!(mac_q15(10, 3, -4), -2);
    assert_eq!(mac_q15(1000, 16384, 16384), 1000 + (1 << 28));
    assert_eq!(sqr_q15(-32768), 1 << 30);
    assert_eq!(sqr_q15(-3), 9);
    assert_eq!(sqr_q15(1234), mul16_16(1234, 1234));
}

#[test]
fn recip_q15_always_saturates() {
    assert_eq!(recip_q15(0), 32767);
    assert_eq!(recip_q15(-5), 32767);
    assert_eq!(recip_q15(1), 32767);
    assert_eq!(recip_q15(32767), 32767);
}

#[test]
fn recip_q15_matches_float_reciprocal() {
    for x in i16::MIN..=i16::MAX {
        let expected = if x <= 0 {
            32767
        } else {
            let x_f = x as f32 / 32767.0;
            let recip_f = 1.0 / x_f;
            sat16((recip_f * 32767.0) as i32)
        };
        assert_eq!(recip_q15(x), expected, "x = {}", x);
    }
}

#[test]
fn sum_sqr_q15_values() {
    assert_eq!(sum_sqr_q15(&[]), 0);
    assert_eq!(sum_sqr_q15(&[100, -100]), 0);
    assert_eq!(sum_sqr_q15(&[16384, 16384]), 16384);
    assert_eq!(sum_sqr_q15(&[-32768]), 32768);
    let x = [300, -2000, 15000, 7];
    assert_eq!(sum_sqr_q15(&x), dot_product_q15(&x, &x));
}

#[test]
fn sum_sqr_q15_ignores_order_and_signs() {
    let x = [300, -2000, 15000, 7, -32767];
    let reordered = [7, -32767, 300, 15000, -2000];
    let negated = [-300, -2000, -15000, 7, 32767];
    assert_eq!(sum_sqr_q15(&x), sum_sqr_q15(&reordered));
    assert_eq!(sum_sqr_q15(&x), sum_sqr_q15(&negated));
}

#[test]
fn dot_product_q15_values() {
    assert_eq!(dot_product_q15(&[], &[]), 0);
    assert_eq!(dot_product_q15(&[16384, 16384], &[16384, -16384]), 0);
    assert_eq!(dot_product_q15(&[16384], &[-16384]), -8192);
    // floor of a negative value rounds away from zero
    assert_eq!(dot_product_q15(&[1], &[-1]), -1);
    let a = [1200, -300, 32767];
    let b = [-5, 77, 12000];
    assert_eq!(dot_product_q15(&a, &b), dot_product_q15(&b, &a));
}

#[test]
fn maxabs16_values() {
    assert_eq!(maxabs16(&[]), 0);
    assert_eq!(maxabs16(&[3, -7, 5]), 7);
    assert_eq!(maxabs16(&[3, 7, -5]), 7);
    assert_eq!(maxabs16(&[-1, -2]), 2);
    assert_eq!(maxabs16(&[32767, -32767]), 32767);
    assert_eq!(maxabs16(&[0, 0]), 0);
}
