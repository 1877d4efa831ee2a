use swarf::single::{Single, ONE};

fn single(f: f32) -> Single {
    Single { bits: f.to_bits() }
}

const NUMBERS: [f32; 19] = [
    0.0,
    -0.0,
    1.0,
    -1.0,
    0.5,
    -0.5,
    0.615,
    0.6150001,
    1e-45,
    -1e-45,
    1.1754942e-38,
    1.1754944e-38,
    3.4e38,
    -3.4e38,
    f32::INFINITY,
    f32::NEG_INFINITY,
    f32::NAN,
    16_777_216.0,
    2.0,
];

#[test]
fn comparison_is_that_of_floats() {
    for a in NUMBERS {
        for b in NUMBERS {
            assert_eq!(single(a).gt(single(b)), a > b, "{a} > {b}");
            assert_eq!(single(a).lt(single(b)), a < b, "{a} < {b}");
        }
    }
}

#[test]
fn bits_of_one() {
    assert_eq!(f32::from_bits(ONE), 1.0);
}

#[test]
fn limits_are_those_of_floats() {
    for a in NUMBERS {
        assert_eq!(f32::from_bits(single(a).max(single(1.0)).bits), a.max(1.0));
        assert_eq!(f32::from_bits(single(a).min(single(400.0)).bits), a.min(400.0));
        let clamped = f32::from_bits(single(a).clamp(single(0.25), single(32.0)).bits);
        if a.is_nan() {
            assert!(clamped.is_nan());
        } else {
            assert_eq!(clamped, a.clamp(0.25, 32.0));
        }
    }
}
