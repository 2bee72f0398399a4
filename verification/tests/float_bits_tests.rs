use fractal_core::float_bits::{Float32, Float64};
use std::cmp::Ordering;

fn sample_f64() -> Vec<f64> {
    vec![
        0.0, -0.0, 1.0, -1.0, 1.5, -1.5, 1e-300, -1e-300, 5e-324, -5e-324, 1e300, -1e300,
        f64::MAX, f64::MIN, f64::INFINITY, f64::NEG_INFINITY, f64::NAN, -f64::NAN,
        f64::from_bits(0x7FF0_0000_0000_0001), f64::from_bits(0xFFF8_0000_0000_0001),
    ]
}

fn sample_f32() -> Vec<f32> {
    vec![
        0.0, -0.0, 1.0, -1.0, 2.5, -2.5, 1e-40, -1e-40, f32::MAX, f32::MIN, f32::INFINITY,
        f32::NEG_INFINITY, f32::NAN, -f32::NAN, f32::from_bits(0x7F80_0001),
    ]
}

#[test]
fn total_key64_orders_as_total_cmp() {
    for &a in &sample_f64() {
        for &b in &sample_f64() {
            let ka = Float64(a.to_bits()).total_key();
            let kb = Float64(b.to_bits()).total_key();
            assert_eq!(ka.cmp(&kb), a.total_cmp(&b), "{a} {b}");
        }
    }
}

#[test]
fn total_key32_orders_as_total_cmp() {
    for &a in &sample_f32() {
        for &b in &sample_f32() {
            let ka = Float32(a.to_bits()).total_key();
            let kb = Float32(b.to_bits()).total_key();
            assert_eq!(ka.cmp(&kb), a.total_cmp(&b), "{a} {b}");
        }
    }
}

#[test]
fn comparisons_match_f64_operators() {
    for &a in &sample_f64() {
        for &b in &sample_f64() {
            let fa = Float64(a.to_bits());
            let fb = Float64(b.to_bits());
            assert_eq!(fa.lt(&fb), a < b, "{a} < {b}");
            assert_eq!(fa.le(&fb), a <= b, "{a} <= {b}");
        }
    }
}

#[test]
fn predicates_match_f64_and_f32() {
    for &a in &sample_f64() {
        let fa = Float64(a.to_bits());
        assert_eq!(fa.is_nan(), a.is_nan());
        assert_eq!(fa.is_zero(), a == 0.0);
        assert_eq!(fa.is_positive_finite(), a > 0.0 && a.is_finite());
    }
    for &a in &sample_f32() {
        assert_eq!(Float32(a.to_bits()).is_nan(), a.is_nan());
    }
}

#[test]
fn zero_is_positive_zero() {
    assert_eq!(f64::from_bits(Float64::zero().0), 0.0);
    assert!(f64::from_bits(Float64::zero().0).is_sign_positive());
    assert_eq!(f32::from_bits(Float32::zero().0), 0.0);
    assert_eq!(Float32(0.5f32.to_bits()).total_key().cmp(&Float32::zero().total_key()), Ordering::Greater);
}
