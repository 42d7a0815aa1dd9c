use baseplug::{Fixed, Real};

const SCALE: f64 = 4294967296.0;

fn fx(v: f64) -> Fixed {
    Fixed::from_raw((v * SCALE).round() as i64)
}

fn to_f(v: Fixed) -> f64 {
    v.raw as f64 / SCALE
}

fn close(a: f64, b: f64, tol: f64) -> bool {
    (a - b).abs() <= tol
}

#[test]
fn arithmetic_matches_reals() {
    let a = fx(1.5);
    let b = fx(-2.25);
    assert_eq!(to_f(a.plus(b)), -0.75);
    assert_eq!(to_f(a.minus(b)), 3.75);
    assert!(close(to_f(a.times(b)), -3.375, 1e-9));
    assert!(close(to_f(a.div(b)), -1.5 / 2.25, 1e-9));
    assert_eq!(to_f(b.abs()), 2.25);
    assert_eq!(to_f(b.neg()), 2.25);
    assert!(b.lt(a));
    assert!(!a.lt(b));
    assert_eq!(to_f(Fixed::from_uint(1000)), 1000.0);
}

#[test]
fn saturation_at_the_limits() {
    let big = Fixed::from_raw(i64::MAX);
    assert_eq!(big.plus(Fixed::one()).raw, i64::MAX);
    assert_eq!(big.times(fx(2.0)).raw, i64::MAX);
    let small = Fixed::from_raw(i64::MIN);
    assert_eq!(small.minus(Fixed::one()).raw, i64::MIN);
    assert_eq!(small.neg().raw, i64::MAX);
}

#[test]
fn division_by_zero_saturates() {
    assert_eq!(Fixed::one().div(Fixed::zero()).raw, i64::MAX);
    assert_eq!(Fixed::one().neg().div(Fixed::zero()).raw, i64::MIN);
    assert_eq!(Fixed::zero().div(Fixed::zero()).raw, 0);
}

#[test]
fn exp_accuracy() {
    for x in [-5.0, -1.0, -0.25, 0.0, 0.5, 1.0, 3.0] {
        let got = to_f(fx(x).exp());
        let want = x.exp();
        assert!(
            close(got, want, want * 1e-4 + 1e-4),
            "exp({}) = {}, want {}",
            x,
            got,
            want
        );
    }
    // deeply negative inputs flush to zero instead of misbehaving
    assert_eq!(fx(-100.0).exp().raw, 0);
}

#[test]
fn log2_accuracy() {
    for x in [0.001, 0.25, 0.9, 1.0, 2.0, 1000.0] {
        let got = to_f(fx(x).log2());
        let want = x.log2();
        assert!(
            close(got, want, 1e-4),
            "log2({}) = {}, want {}",
            x,
            got,
            want
        );
    }
    // zero and negatives saturate to the representation's bottom
    assert_eq!(Fixed::zero().log2().raw, i64::MIN);
    assert_eq!(fx(-1.0).log2().raw, i64::MIN);
}

#[test]
fn exp2_of_integer_exponents() {
    assert!(close(to_f(fx(3.0).exp2()), 8.0, 1e-4));
    assert!(close(to_f(fx(-3.0).exp2()), 0.125, 1e-5));
}
