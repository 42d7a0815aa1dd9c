use baseplug::parameter::{enum_normal_of_variant, enum_variant_of_normal, EnumModel};
use baseplug::Fixed;

const SCALE: f64 = 4294967296.0;

#[derive(Debug, PartialEq, Eq, Clone)]
enum ModelEnum {
    A,
    B,
    C,
}

impl EnumModel for ModelEnum {

}

impl From<f32> for ModelEnum {
    fn from(value: f32) -> Self {
        let value = value.min(1.0).max(0.0);
        let raw = (value as f64 * SCALE) as i64;
        match enum_variant_of_normal(Fixed::from_raw(raw), 3) {
            0 => ModelEnum::A,
            1 => ModelEnum::B,
            _ => ModelEnum::C,
        }
    }
}

impl From<ModelEnum> for f32 {
    fn from(value: ModelEnum) -> Self {
        let idx: usize = match value {
            ModelEnum::A => 0,
            ModelEnum::B => 1,
            ModelEnum::C => 2,
        };
        let normal = enum_normal_of_variant(idx, 3);
        (normal.raw as f64 / SCALE) as f32
    }
}

#[test]
fn from_f32_for_model_enum() {
    assert_eq!(ModelEnum::from(-1.0), ModelEnum::A);
    assert_eq!(ModelEnum::from(0.0), ModelEnum::A);
    assert_eq!(ModelEnum::from(0.5), ModelEnum::B);
    assert_eq!(ModelEnum::from(1.0), ModelEnum::C);
    assert_eq!(ModelEnum::from(2.0), ModelEnum::C);

    assert_eq!(ModelEnum::from(-f32::INFINITY), ModelEnum::A);
    assert_eq!(ModelEnum::from(-f32::NAN), ModelEnum::C);
    assert_eq!(ModelEnum::from(f32::NAN), ModelEnum::C);
    assert_eq!(ModelEnum::from(f32::INFINITY), ModelEnum::C);
}

#[test]
fn from_model_enum_for_f32() {
    let value: f32 = ModelEnum::A.into();
    assert_eq!(value, 0.0);
    let value: f32 = ModelEnum::B.into();
    assert_eq!(value, 1.0 / 3.0);
    let value: f32 = ModelEnum::C.into();
    assert_eq!(value, 2.0 / 3.0);
}

#[test]
fn enum_round_trip_all_variants() {
    for n in [1usize, 2, 3, 7, 12] {
        for i in 0..n {
            let normal = enum_normal_of_variant(i, n);
            assert_eq!(enum_variant_of_normal(normal, n), i);
        }
    }
    // a very large table still round-trips at both ends and in the middle
    let n = 0x4000_0000usize;
    for i in [0usize, 1, n / 2, n - 2, n - 1] {
        let normal = enum_normal_of_variant(i, n);
        assert_eq!(enum_variant_of_normal(normal, n), i);
    }
}
