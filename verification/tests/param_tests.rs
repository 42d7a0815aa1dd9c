use baseplug::parameter::{
    dsp_val_to_normal, dsp_val_to_unit_val, normal_to_dsp_val, normal_to_unit_value,
    unit_val_to_dsp_val, unit_value_to_normal, Gradient, Type, Unit,
};
use baseplug::util::{coeff_to_db, db_to_coeff};
use baseplug::{Fixed, Real};

const SCALE: f64 = 4294967296.0;

fn fx(v: f64) -> Fixed {
    Fixed::from_raw((v * SCALE).round() as i64)
}

fn to_f(v: Fixed) -> f64 {
    v.raw as f64 / SCALE
}

fn close(a: f64, b: f64, tol: f64) -> bool {
    (a - b).abs() <= tol
}

#[test]
fn linear_round_trip() {
    let ty = Type::Numeric { min: fx(-1.0), max: fx(1.0), gradient: Gradient::Linear };
    for n in [0.0, 0.1, 0.25, 0.5, 0.9, 1.0] {
        let unit = normal_to_unit_value(&ty, fx(n));
        let back = unit_value_to_normal(&ty, unit);
        assert!(close(to_f(back), n, 1e-6), "n = {}, back = {}", n, to_f(back));
    }
    // linear mapping itself: 0.75 over [-1, 1] is 0.5
    assert!(close(to_f(normal_to_unit_value(&ty, fx(0.75))), 0.5, 1e-6));
}

#[test]
fn power_round_trip() {
    let ty = Type::Numeric { min: fx(0.0), max: fx(4.0), gradient: Gradient::Power(fx(2.0)) };
    for n in [0.1, 0.25, 0.5, 0.75, 0.9] {
        let unit = normal_to_unit_value(&ty, fx(n));
        let back = unit_value_to_normal(&ty, unit);
        assert!(close(to_f(back), n, 1e-3), "n = {}, back = {}", n, to_f(back));
    }
    // 0.5^2 * 4 = 1
    assert!(close(to_f(normal_to_unit_value(&ty, fx(0.5))), 1.0, 1e-3));
}

#[test]
fn exponential_round_trip() {
    let ty = Type::Numeric { min: fx(0.01), max: fx(100.0), gradient: Gradient::Exponential };
    for n in [0.1, 0.25, 0.5, 0.75, 0.9] {
        let unit = normal_to_unit_value(&ty, fx(n));
        let back = unit_value_to_normal(&ty, unit);
        assert!(close(to_f(back), n, 1e-3), "n = {}, back = {}", n, to_f(back));
    }
    // the midpoint of 0.01..100 on an exponential curve is 1
    assert!(close(to_f(normal_to_unit_value(&ty, fx(0.5))), 1.0, 1e-2));
}

#[test]
fn exponential_endpoints_are_exact() {
    let min = fx(0.01);
    let max = fx(100.0);
    let ty = Type::Numeric { min, max, gradient: Gradient::Exponential };
    assert_eq!(normal_to_unit_value(&ty, Fixed::zero()), min);
    assert_eq!(normal_to_unit_value(&ty, Fixed::one()), max);
}

#[test]
fn normal_saturates_outside_the_range() {
    let ty = Type::Numeric { min: fx(-1.0), max: fx(1.0), gradient: Gradient::Linear };
    // at or below the minimum: exactly 0; at or above the maximum: exactly 1
    assert_eq!(unit_value_to_normal(&ty, fx(-1.0)), Fixed::zero());
    assert_eq!(unit_value_to_normal(&ty, fx(-7.0)), Fixed::zero());
    assert_eq!(unit_value_to_normal(&ty, fx(1.0)), Fixed::one());
    assert_eq!(unit_value_to_normal(&ty, fx(7.0)), Fixed::one());
    // out-of-range normalized input is clamped before mapping
    assert_eq!(normal_to_unit_value(&ty, fx(2.0)), normal_to_unit_value(&ty, Fixed::one()));
    assert_eq!(normal_to_unit_value(&ty, fx(-2.0)), normal_to_unit_value(&ty, Fixed::zero()));
}

#[test]
fn decibel_conversion() {
    // 0 dB is unity gain
    assert!(close(to_f(db_to_coeff(Fixed::zero())), 1.0, 1e-3));
    // -20 dB is a tenth
    assert!(close(to_f(db_to_coeff(fx(-20.0))), 0.1, 1e-3));
    // +6 dB is very nearly a doubling
    assert!(close(to_f(db_to_coeff(fx(6.0))), 1.9953, 1e-2));
}

#[test]
fn decibel_round_trip() {
    for c in [0.0001, 0.001, 0.1, 0.5, 1.0, 1.4] {
        let db = coeff_to_db(fx(c));
        let back = db_to_coeff(db);
        assert!(
            close(to_f(back), c, c * 0.01 + 1e-6),
            "c = {}, back = {}",
            c,
            to_f(back)
        );
    }
}

#[test]
fn decibel_floor_is_exact() {
    let floor_db = fx(-90.0);
    // at or below the threshold coefficient, exactly -90 dB comes back
    assert_eq!(coeff_to_db(Fixed::from_raw(135819)), floor_db);
    assert_eq!(coeff_to_db(Fixed::from_raw(1)), floor_db);
    assert_eq!(coeff_to_db(Fixed::zero()), floor_db);
    // below the -90 dB floor the coefficient collapses to exact silence
    assert_eq!(db_to_coeff(fx(-90.001)), Fixed::zero());
    assert_eq!(db_to_coeff(fx(-500.0)), Fixed::zero());
    // at the floor itself the gain is still nonzero
    assert!(db_to_coeff(fx(-90.0)).raw > 0);
}

#[test]
fn unit_decibels_translates_and_generic_passes_through() {
    let v = fx(-6.0);
    assert_eq!(unit_val_to_dsp_val(Unit::Generic, v), v);
    assert_eq!(dsp_val_to_unit_val(Unit::Generic, v), v);
    let coeff = unit_val_to_dsp_val(Unit::Decibels, v);
    assert!(close(to_f(coeff), 0.5012, 1e-2));
    let back = dsp_val_to_unit_val(Unit::Decibels, coeff);
    assert!(close(to_f(back), -6.0, 0.05));
}

#[test]
fn full_chain_round_trip() {
    let ty = Type::Numeric { min: fx(-90.0), max: fx(3.0), gradient: Gradient::Linear };
    for n in [0.1, 0.5, 0.9] {
        let dsp = normal_to_dsp_val(Unit::Decibels, &ty, fx(n));
        let back = dsp_val_to_normal(Unit::Decibels, &ty, dsp);
        assert!(close(to_f(back), n, 1e-3), "n = {}, back = {}", n, to_f(back));
    }
}
