//! Exact expected values for the fixed-point scalar operations.

use computer_graphics_from_scratch_rs::fx::{
    fx_add, fx_div, fx_lerp, fx_mul, fx_neg, fx_pow, fx_sqrt, fx_sub, ALPHA_OPAQUE, FX_INF,
    FX_MAX, SCALE,
};

#[test]
fn constants_are_consistent() {
    assert_eq!(SCALE, 1000);
    assert_eq!(ALPHA_OPAQUE, 255 * SCALE);
    assert!(FX_MAX < FX_INF);
}

#[test]
fn addition_and_subtraction() {
    assert_eq!(fx_add(1500, 2500), 4000);
    assert_eq!(fx_add(-1500, 500), -1000);
    assert_eq!(fx_sub(1500, 2500), -1000);
    assert_eq!(fx_neg(-4000), 4000);
}

#[test]
fn addition_saturates() {
    assert_eq!(fx_add(FX_MAX, 1), FX_MAX);
    assert_eq!(fx_add(FX_MAX, FX_MAX), FX_MAX);
    assert_eq!(fx_sub(-FX_MAX, 1), -FX_MAX);
    assert_eq!(fx_neg(i64::MIN), FX_MAX);
}

#[test]
fn multiplication_scales_once() {
    // 1.5 * 1.5 == 2.25
    assert_eq!(fx_mul(1500, 1500), 2250);
    assert_eq!(fx_mul(-1500, 1500), -2250);
    assert_eq!(fx_mul(0, 123456), 0);
}

#[test]
fn multiplication_truncates_toward_zero() {
    // 0.001 * 0.001 rounds to 0 from either side
    assert_eq!(fx_mul(1, 1), 0);
    assert_eq!(fx_mul(-1, 1), 0);
    assert_eq!(fx_mul(1999, 1), 1);
    assert_eq!(fx_mul(-1999, 1), -1);
}

#[test]
fn division_is_total() {
    // 0.001 / 0.003 == 0.333...
    assert_eq!(fx_div(1, 3), 333);
    assert_eq!(fx_div(-1, 3), -333);
    assert_eq!(fx_div(1, -3), -333);
    assert_eq!(fx_div(6000, 2000), 3000);
    assert_eq!(fx_div(5, 0), 0);
}

#[test]
fn square_root_exact_values() {
    // sqrt(4.0) == 2.0, sqrt(2.0) == 1.414..., sqrt(25.0) == 5.0
    assert_eq!(fx_sqrt(4000), 2000);
    assert_eq!(fx_sqrt(2000), 1414);
    assert_eq!(fx_sqrt(25000), 5000);
    assert_eq!(fx_sqrt(0), 0);
    assert_eq!(fx_sqrt(-5000), 0);
    assert_eq!(fx_sqrt(1), 31);
}

#[test]
fn power_with_integer_exponent() {
    assert_eq!(fx_pow(500, 0), 1000);
    assert_eq!(fx_pow(500, 1), 500);
    // 0.5 ^ 2 == 0.25
    assert_eq!(fx_pow(500, 2), 250);
    // 1.0 to any power stays 1.0
    assert_eq!(fx_pow(1000, 50), 1000);
    // 2.0 ^ 10 == 1024.0
    assert_eq!(fx_pow(2000, 10), 1024000);
}

#[test]
fn interpolation_endpoints_and_midpoints() {
    assert_eq!(fx_lerp(0, 1000, 0), 0);
    assert_eq!(fx_lerp(0, 1000, SCALE), 1000);
    assert_eq!(fx_lerp(0, 1000, 250), 250);
    assert_eq!(fx_lerp(51000, 10000, 500), 30500);
    assert_eq!(fx_lerp(-1000, 1000, 500), 0);
}
