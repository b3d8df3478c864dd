use ray_tracer::scalar::Real;
use ray_tracer::scalar::SCALE;

/// The fixed-point number nearest to `x`.
fn fixed(x: f64) -> Real {
    Real::from_raw((x * 4294967296.0).round() as i64)
}

#[test]
fn whole_numbers_are_exact() {
    assert_eq!(SCALE, 1i64 << 32);
    assert_eq!(Real::zero().raw, 0);
    assert_eq!(Real::one().raw, 1i64 << 32);
    assert_eq!(Real::from_int(3).raw, 3i64 << 32);
    assert_eq!(Real::from_int(-7).raw, -(7i64 << 32));
    assert_eq!(Real::from_int(i32::MIN).raw, i64::MIN);
    assert_eq!(Real::from_u32(5), Real::from_int(5));
    assert_eq!(Real::from_u32(0x7fff_ffff).raw, 0x7fff_ffffi64 << 32);
    assert_eq!(Real::from_u32(0x8000_0000), Real::max_value());
    assert_eq!(Real::max_value().raw, i64::MAX);
}

#[test]
fn ratios_round_toward_zero() {
    assert_eq!(Real::from_ratio(1, 2).raw, 1i64 << 31);
    assert_eq!(Real::from_ratio(7, 10).raw, 3006477107);
    assert_eq!(Real::from_ratio(-7, 10).raw, -3006477107);
    assert_eq!(Real::from_ratio(25599, 100).raw, 1099468678103);
    assert_eq!(Real::from_ratio(1, 1000).raw, 4294967);
    assert_eq!(Real::from_ratio(1, 0), Real::max_value());
}

#[test]
fn sums_and_differences() {
    assert_eq!(Real::from_int(2) + Real::from_int(3), Real::from_int(5));
    assert_eq!(Real::from_int(2) - Real::from_int(3), Real::from_int(-1));
    assert_eq!(fixed(0.25) + fixed(0.5), fixed(0.75));
    assert_eq!(-Real::from_int(4), Real::from_int(-4));
}

#[test]
fn sums_are_clamped() {
    assert_eq!(Real::max_value() + Real::one(), Real::max_value());
    assert_eq!(Real::from_raw(i64::MIN) - Real::one(), Real::from_raw(i64::MIN));
    assert_eq!(Real::from_raw(i64::MIN) + Real::from_raw(i64::MIN), Real::from_raw(i64::MIN));
    assert_eq!(-Real::from_raw(i64::MIN), Real::max_value());
    assert_eq!(Real::max_value() - Real::from_raw(i64::MIN), Real::max_value());
}

#[test]
fn products_round_toward_zero() {
    assert_eq!(fixed(1.5) * fixed(2.5), fixed(3.75));
    assert_eq!(fixed(-1.5) * fixed(2.5), fixed(-3.75));
    assert_eq!(fixed(-1.5) * fixed(-2.5), fixed(3.75));
    assert_eq!(Real::from_raw(1) * Real::from_raw(1), Real::zero());
    assert_eq!(Real::from_raw(-1) * Real::from_raw(1), Real::zero());
    assert_eq!(Real::from_raw(3) * fixed(0.5), Real::from_raw(1));
    assert_eq!(Real::from_raw(-3) * fixed(0.5), Real::from_raw(-1));
    assert_eq!(Real::from_int(9) * Real::zero(), Real::zero());
}

#[test]
fn products_are_clamped() {
    assert_eq!(Real::from_int(100000) * Real::from_int(100000), Real::max_value());
    assert_eq!(Real::from_int(-100000) * Real::from_int(100000), Real::from_raw(i64::MIN));
    assert_eq!(Real::from_raw(i64::MIN) * Real::from_raw(i64::MIN), Real::max_value());
}

#[test]
fn quotients_round_toward_zero() {
    assert_eq!(Real::from_int(1) / Real::from_int(4), fixed(0.25));
    assert_eq!((Real::from_int(1) / Real::from_int(3)).raw, 1431655765);
    assert_eq!((Real::from_int(-1) / Real::from_int(3)).raw, -1431655765);
    assert_eq!((Real::from_int(1) / Real::from_int(-3)).raw, -1431655765);
    assert_eq!(Real::from_int(-6) / Real::from_int(-3), Real::from_int(2));
    assert_eq!(Real::from_int(1) / Real::from_raw(1), Real::max_value());
}

#[test]
fn division_by_zero_goes_to_the_bound() {
    assert_eq!(Real::from_int(3) / Real::zero(), Real::max_value());
    assert_eq!(Real::from_int(-3) / Real::zero(), Real::from_raw(i64::MIN));
    assert_eq!(Real::zero() / Real::zero(), Real::zero());
}

#[test]
fn square_roots_round_down() {
    assert_eq!(Real::from_int(4).sqrt(), Real::from_int(2));
    assert_eq!(fixed(0.25).sqrt(), fixed(0.5));
    assert_eq!(Real::zero().sqrt(), Real::zero());
    assert_eq!(Real::from_int(-9).sqrt(), Real::zero());
    let root = Real::from_int(2).sqrt();
    assert_eq!(root.raw, 6074000999);
    let r = root.raw as u128;
    let n = 2u128 << 64;
    assert!(r * r <= n && n < (r + 1) * (r + 1));
    let top = Real::max_value().sqrt().raw as u128;
    let m = (i64::MAX as u128) << 32;
    assert!(top * top <= m && m < (top + 1) * (top + 1));
}

#[test]
fn powers_multiply_in_turn() {
    assert_eq!(fixed(0.5).powi(5), fixed(0.03125));
    assert_eq!(Real::from_int(-2).powi(3), Real::from_int(-8));
    assert_eq!(Real::from_int(7).powi(0), Real::one());
    let third = Real::from_ratio(1, 3);
    assert_eq!(third.powi(2), third * third);
}

#[test]
fn comparisons_follow_the_raw_values() {
    let a = fixed(-0.5);
    let b = fixed(0.25);
    assert!(a.lt(b) && a.le(b) && b.gt(a) && b.ge(a));
    assert!(!b.lt(a) && !b.le(a) && !a.gt(b) && !a.ge(b));
    assert!(a.le(a) && a.ge(a) && !a.lt(a) && !a.gt(a));
    assert_eq!(a.min(b), a);
    assert_eq!(b.min(a), a);
}
