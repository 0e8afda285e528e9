use oxide::fx::{fx_add, fx_div, fx_mul, fx_neg, fx_powi, fx_sqrt, fx_sub, FX_ONE};

#[test]
fn products_rescale_and_truncate_toward_zero() {
    assert_eq!(fx_mul(FX_ONE, FX_ONE), FX_ONE);
    assert_eq!(fx_mul(2 * FX_ONE, 3 * FX_ONE), 6 * FX_ONE);
    assert_eq!(fx_mul(500_000, 500_000), 250_000);
    // 0.000001 * 0.5 truncates to zero, from either sign
    assert_eq!(fx_mul(1, 500_000), 0);
    assert_eq!(fx_mul(-1, 500_000), 0);
}

#[test]
fn sums_and_differences_saturate() {
    assert_eq!(fx_add(FX_ONE, FX_ONE), 2 * FX_ONE);
    assert_eq!(fx_add(i64::MAX, 1), i64::MAX);
    assert_eq!(fx_sub(i64::MIN, 1), i64::MIN);
    assert_eq!(fx_mul(i64::MAX, 2 * FX_ONE), i64::MAX);
    assert_eq!(fx_neg(i64::MIN), i64::MAX);
    assert_eq!(fx_neg(5), -5);
}

#[test]
fn quotients_with_zero_divisors_are_signed_saturation() {
    assert_eq!(fx_div(6 * FX_ONE, 2 * FX_ONE), 3 * FX_ONE);
    assert_eq!(fx_div(FX_ONE, 3 * FX_ONE), 333_333);
    assert_eq!(fx_div(FX_ONE, 0), i64::MAX);
    assert_eq!(fx_div(-FX_ONE, 0), i64::MIN);
    assert_eq!(fx_div(0, 0), 0);
}

#[test]
fn square_roots_floor_and_reject_negatives() {
    assert_eq!(fx_sqrt(4 * FX_ONE), 2 * FX_ONE);
    assert_eq!(fx_sqrt(25 * FX_ONE), 5 * FX_ONE);
    // sqrt(2) in micro-units, floored
    assert_eq!(fx_sqrt(2 * FX_ONE), 1_414_213);
    assert_eq!(fx_sqrt(0), 0);
    assert_eq!(fx_sqrt(-9 * FX_ONE), 0);
}

#[test]
fn integer_powers_repeat_the_product() {
    assert_eq!(fx_powi(500_000, 1), 500_000);
    assert_eq!(fx_powi(500_000, 2), 250_000);
    assert_eq!(fx_powi(500_000, 3), 125_000);
    assert_eq!(fx_powi(2 * FX_ONE, 10), 1024 * FX_ONE);
    // a non-positive exponent yields one
    assert_eq!(fx_powi(500_000, 0), FX_ONE);
    assert_eq!(fx_powi(500_000, -3), FX_ONE);
}
