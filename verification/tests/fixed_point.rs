use ray_tracer::fixed::{fx_div, fx_mul, fx_sqrt, isqrt_u128, tdiv_i64, HALF, ONE};

#[test]
fn one_times_one_is_one() {
    assert_eq!(fx_mul(ONE, ONE), ONE);
}

#[test]
fn half_times_half_is_quarter() {
    assert_eq!(fx_mul(HALF, HALF), ONE / 4);
}

#[test]
fn multiplication_truncates_toward_zero() {
    assert_eq!(fx_mul(-3, 1), 0);
    assert_eq!(fx_mul(3, 1), 0);
    assert_eq!(fx_mul(-HALF, ONE), -HALF);
}

#[test]
fn division_examples() {
    assert_eq!(fx_div(ONE, 2 * ONE), HALF);
    assert_eq!(fx_div(ONE, 3 * ONE), 21845);
    assert_eq!(fx_div(-ONE, 2 * ONE), -HALF);
}

#[test]
fn truncating_division_rounds_toward_zero() {
    assert_eq!(tdiv_i64(-7, 2), -3);
    assert_eq!(tdiv_i64(7, 2), 3);
}

#[test]
fn integer_square_roots() {
    assert_eq!(isqrt_u128(0), 0);
    assert_eq!(isqrt_u128(3), 1);
    assert_eq!(isqrt_u128(4), 2);
    assert_eq!(isqrt_u128(152399025), 12345);
    assert_eq!(isqrt_u128(152399024), 12344);
    assert_eq!(isqrt_u128(u128::MAX), 0xFFFF_FFFF_FFFF_FFFF);
}

#[test]
fn fixed_square_roots() {
    assert_eq!(fx_sqrt(0), 0);
    assert_eq!(fx_sqrt(ONE), ONE);
    assert_eq!(fx_sqrt(ONE / 4), HALF);
    assert_eq!(fx_sqrt(4 * ONE), 2 * ONE);
    // sqrt(0.5) = 0.70710678... which is 46340.95 in fixed point.
    assert_eq!(fx_sqrt(HALF), 46340);
}
