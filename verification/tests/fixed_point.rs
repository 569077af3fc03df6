use raytracer::fixed::isqrt_u128;
use raytracer::fixed::saturate;
use raytracer::fixed::wide_div;
use raytracer::fixed::wide_mul;
use raytracer::fixed::Fixed;
use raytracer::fixed::ONE_RAW;

fn fx(x: f64) -> Fixed {
    Fixed::from_raw((x * 4294967296.0).round() as i64)
}

fn val(x: Fixed) -> f64 {
    x.raw() as f64 / 4294967296.0
}

#[test]
fn one_has_thirty_two_fractional_bits() {
    assert_eq!(ONE_RAW, 1i64 << 32);
    assert_eq!(Fixed::one().raw(), 4294967296);
    assert_eq!(Fixed::zero().raw(), 0);
    assert_eq!(Fixed::from_int(-3).raw(), -3 * 4294967296);
    assert_eq!(Fixed::from_int(i32::MIN).raw(), i64::MIN);
}

#[test]
fn sums_and_differences_are_exact_in_range() {
    assert_eq!(fx(1.5) + fx(2.25), fx(3.75));
    assert_eq!(fx(1.5) - fx(2.25), fx(-0.75));
    assert_eq!(-fx(1.5), fx(-1.5));
    assert_eq!(fx(-0.75).abs(), fx(0.75));
    assert_eq!(fx(0.75).abs(), fx(0.75));
}

#[test]
fn sums_saturate() {
    let max = Fixed::from_raw(i64::MAX);
    let min = Fixed::from_raw(i64::MIN);
    assert_eq!(max + Fixed::one(), max);
    assert_eq!(min - Fixed::one(), min);
    assert_eq!(min + max, Fixed::from_raw(-1));
    assert_eq!(-min, max);
    assert_eq!(min.abs(), max);
    assert_eq!(Fixed::zero() - min, max);
}

#[test]
fn products_round_toward_zero() {
    assert_eq!(fx(1.5) * fx(2.5), fx(3.75));
    assert_eq!(fx(-1.5) * fx(2.5), fx(-3.75));
    assert_eq!(Fixed::from_raw(1) * Fixed::from_raw(1), Fixed::zero());
    assert_eq!(Fixed::from_raw(-1) * Fixed::from_raw(1), Fixed::zero());
    assert_eq!(Fixed::from_raw(3) * fx(0.5), Fixed::from_raw(1));
    assert_eq!(Fixed::from_raw(-3) * fx(0.5), Fixed::from_raw(-1));
    assert_eq!(Fixed::from_raw(65536) * Fixed::from_raw(65536), Fixed::from_raw(1));
}

#[test]
fn products_saturate() {
    let big = Fixed::from_int(100_000);
    assert_eq!(big * big, Fixed::from_raw(i64::MAX));
    assert_eq!(big * -big, Fixed::from_raw(i64::MIN));
    let min = Fixed::from_raw(i64::MIN);
    assert_eq!(min * min, Fixed::from_raw(i64::MAX));
}

#[test]
fn quotients_round_toward_zero() {
    assert_eq!(Fixed::one() / Fixed::from_int(3), Fixed::from_raw(1431655765));
    assert_eq!(Fixed::from_int(-1) / Fixed::from_int(3), Fixed::from_raw(-1431655765));
    assert_eq!(Fixed::one() / Fixed::from_int(-3), Fixed::from_raw(-1431655765));
    assert_eq!(Fixed::from_int(-1) / Fixed::from_int(-3), Fixed::from_raw(1431655765));
    assert_eq!(fx(3.75) / fx(2.5), fx(1.5));
    assert_eq!(Fixed::from_int(7) / Fixed::one(), Fixed::from_int(7));
}

#[test]
fn division_by_zero_gives_the_bound_of_the_sign() {
    assert_eq!(Fixed::one() / Fixed::zero(), Fixed::from_raw(i64::MAX));
    assert_eq!(Fixed::from_int(-1) / Fixed::zero(), Fixed::from_raw(i64::MIN));
    assert_eq!(Fixed::zero() / Fixed::zero(), Fixed::zero());
}

#[test]
fn quotients_saturate() {
    assert_eq!(Fixed::from_int(1000) / Fixed::from_raw(1), Fixed::from_raw(i64::MAX));
    assert_eq!(Fixed::from_int(-1000) / Fixed::from_raw(1), Fixed::from_raw(i64::MIN));
}

#[test]
fn ratios_of_integers() {
    assert_eq!(Fixed::ratio(1, 2), fx(0.5));
    assert_eq!(Fixed::ratio(1, 1000).raw(), 4294967);
    assert_eq!(Fixed::ratio(999, 1000).raw(), 4290672328);
    assert_eq!(Fixed::ratio(7, 10).raw(), 3006477107);
    assert_eq!(Fixed::ratio(-7, 2), fx(-3.5));
    assert_eq!(Fixed::ratio(5, 0), Fixed::from_raw(i64::MAX));
}

#[test]
fn square_roots_round_down() {
    assert_eq!(Fixed::from_int(4).sqrt(), Fixed::from_int(2));
    assert_eq!(fx(0.25).sqrt(), fx(0.5));
    assert_eq!(Fixed::zero().sqrt(), Fixed::zero());
    assert_eq!(Fixed::from_int(2).sqrt().raw(), 6074000999);
    assert_eq!(Fixed::from_raw(1).sqrt().raw(), 65536);
    let top = Fixed::from_raw(i64::MAX).sqrt().raw() as i128;
    let n = (i64::MAX as i128) << 32;
    assert!(top * top <= n && n < (top + 1) * (top + 1));
}

#[test]
fn integer_square_root_brackets_its_argument() {
    assert_eq!(isqrt_u128(0), 0);
    assert_eq!(isqrt_u128(1), 1);
    assert_eq!(isqrt_u128(3), 1);
    assert_eq!(isqrt_u128(4), 2);
    assert_eq!(isqrt_u128(99), 9);
    assert_eq!(isqrt_u128(100), 10);
    assert_eq!(isqrt_u128(1 << 64), 1 << 32);
    assert_eq!(isqrt_u128(u128::MAX), u64::MAX);
    assert_eq!(isqrt_u128((u64::MAX as u128) * (u64::MAX as u128) - 1), u64::MAX - 1);
}

#[test]
fn wide_helpers() {
    assert_eq!(wide_mul(i64::MIN, i64::MIN), 1i128 << 126);
    assert_eq!(wide_mul(-3, 5), -15);
    assert_eq!(wide_div(-7, 2), -3);
    assert_eq!(wide_div(7, -2), -3);
    assert_eq!(wide_div(-7, -2), 3);
    assert_eq!(wide_div(7, 2), 3);
    assert_eq!(saturate(1i128 << 100), i64::MAX);
    assert_eq!(saturate(-(1i128 << 100)), i64::MIN);
    assert_eq!(saturate(-5), -5);
}

#[test]
fn clamp_keeps_values_inside() {
    let lo = Fixed::zero();
    let hi = fx(0.999);
    assert_eq!(fx(0.5).clamp(lo, hi), fx(0.5));
    assert_eq!(fx(-0.5).clamp(lo, hi), lo);
    assert_eq!(fx(1.5).clamp(lo, hi), hi);
    assert_eq!(lo.clamp(lo, hi), lo);
    assert_eq!(hi.clamp(lo, hi), hi);
}

#[test]
fn powers_by_repeated_multiplication() {
    assert_eq!(Fixed::from_int(2).powi(5), Fixed::from_int(32));
    assert_eq!(fx(0.5).powi(5), fx(0.03125));
    assert_eq!(fx(-0.5).powi(3), fx(-0.125));
    assert_eq!(Fixed::from_int(7).powi(0), Fixed::one());
    assert_eq!(Fixed::zero().powi(0), Fixed::one());
    assert_eq!(Fixed::from_int(7).powi(1), Fixed::from_int(7));
}

#[test]
fn tangent_of_half_a_right_angle_is_one() {
    let pi = Fixed::from_raw(13_493_037_705);
    assert_eq!((pi / Fixed::from_int(4)).tan(), Fixed::one());
}

#[test]
fn trigonometry_is_close_to_the_real_functions() {
    let mut deg = -90.0f64;
    while deg <= 90.0 {
        let x = deg.to_radians();
        assert!((val(fx(x).sin()) - x.sin()).abs() < 1e-8, "sin {}", deg);
        assert!((val(fx(x).cos()) - x.cos()).abs() < 1e-8, "cos {}", deg);
        deg += 2.5;
    }
    let mut deg = -80.0f64;
    while deg <= 80.0 {
        let x = deg.to_radians();
        assert!((val(fx(x).tan()) - x.tan()).abs() < 1e-7, "tan {}", deg);
        deg += 2.5;
    }
    assert_eq!(Fixed::zero().sin(), Fixed::zero());
    assert_eq!(Fixed::zero().cos(), Fixed::one());
    assert_eq!(Fixed::zero().tan(), Fixed::zero());
}

#[test]
fn scalars_are_ordered_as_their_values() {
    assert!(fx(-1.5) < fx(-1.25));
    assert!(fx(-1.25) < Fixed::zero());
    assert!(Fixed::zero() < Fixed::from_raw(1));
    assert!(fx(0.5) <= fx(0.5));
    assert!(fx(0.5) >= fx(0.5));
    assert!(fx(2.0) > fx(0.5));
    assert!(!(fx(2.0) < fx(2.0)));
    assert!(Fixed::from_raw(i64::MIN) < Fixed::from_raw(i64::MAX));
    assert_eq!(fx(1.0).partial_cmp(&fx(2.0)), Some(std::cmp::Ordering::Less));
    assert_eq!(fx(2.0).partial_cmp(&fx(2.0)), Some(std::cmp::Ordering::Equal));
    assert_eq!(fx(3.0).partial_cmp(&fx(2.0)), Some(std::cmp::Ordering::Greater));
}
