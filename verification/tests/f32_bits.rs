use nantaraquad::f32_bits::{clamp, lt, nan, ONE, ZERO};

#[test]
fn encodings_of_zero_and_one() {
    assert_eq!(f32::from_bits(ZERO), 0.0);
    assert_eq!(f32::from_bits(ONE), 1.0);
}

#[test]
fn lt_agrees_with_float_comparison() {
    let vals = [0.0f32, -0.0, 1.0, -1.0, 0.5, -2.5, 1e30, -1e30, f32::INFINITY, f32::NEG_INFINITY, f32::NAN, 1e-40, -1e-40];
    for a in vals {
        assert_eq!(nan(a.to_bits()), a.is_nan());
        for b in vals {
            assert_eq!(lt(a.to_bits(), b.to_bits()), a < b, "{} < {}", a, b);
        }
    }
}

#[test]
fn clamp_agrees_with_f32_clamp() {
    let vals = [0.0f32, -0.0, 1.0, -1.0, 0.5, 2.0, 0.05, 5.0, f32::INFINITY, f32::NEG_INFINITY];
    for x in vals {
        assert_eq!(clamp(x.to_bits(), 0.1f32.to_bits(), 4.0f32.to_bits()), x.clamp(0.1, 4.0).to_bits());
        assert_eq!(clamp(x.to_bits(), ZERO, ONE), x.clamp(0.0, 1.0).to_bits());
    }
    assert!(f32::from_bits(clamp(f32::NAN.to_bits(), ZERO, ONE)).is_nan());
}
