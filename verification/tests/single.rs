use music_player::single::{Single, ONE_BITS, THREE_TENTHS_BITS, TWO_BITS, ZERO_BITS};

fn single(value: f32) -> Single {
    Single { bits: value.to_bits() }
}

fn numbers() -> Vec<f32> {
    vec![
        0.0,
        -0.0,
        f32::MIN_POSITIVE,
        -f32::MIN_POSITIVE,
        f32::from_bits(1),
        -f32::from_bits(1),
        0.3,
        -0.3,
        1.0,
        -1.0,
        1.5,
        2.0,
        -2.0,
        255.0,
        f32::MAX,
        f32::MIN,
        f32::INFINITY,
        f32::NEG_INFINITY,
        f32::NAN,
        -f32::NAN,
        f32::from_bits(0x7f80_0001),
    ]
}

#[test]
fn constants_are_the_numbers_they_stand_for() {
    assert_eq!(ZERO_BITS, 0.0f32.to_bits());
    assert_eq!(THREE_TENTHS_BITS, 0.3f32.to_bits());
    assert_eq!(ONE_BITS, 1.0f32.to_bits());
    assert_eq!(TWO_BITS, 2.0f32.to_bits());
    assert_eq!(Single::zero(), single(0.0));
}

#[test]
fn order_is_that_of_the_numbers() {
    for a in numbers() {
        for b in numbers() {
            assert_eq!(single(a).less_than(single(b)), a < b, "{} < {}", a, b);
        }
    }
}

#[test]
fn magnitude_is_that_of_the_numbers() {
    for a in numbers() {
        assert_eq!(single(a).abs().bits, a.abs().to_bits());
        assert_eq!(single(a).is_nan(), a.is_nan());
    }
}

#[test]
fn unit_bounds_are_those_of_the_numbers() {
    for a in numbers() {
        assert_eq!(single(a).clamp_unit().bits, a.clamp(0.0, 1.0).to_bits(), "{}", a);
        assert_eq!(single(a).clamp_unit().clamp_unit(), single(a).clamp_unit());
    }
}
