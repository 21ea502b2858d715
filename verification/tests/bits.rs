use nih_faust_jit::bits::{clamp, is_finite, is_le, is_lt, is_nan, is_same, max, min};

#[test]
fn order_is_that_of_the_numbers() {
    let values = [
        0.0f32, -0.0, 1.0, -1.0, 0.5, -0.5, f32::MIN_POSITIVE, 1e-40, -1e-40, f32::MAX, f32::MIN,
        f32::INFINITY, f32::NEG_INFINITY, f32::NAN, -f32::NAN,
    ];
    for a in values {
        assert_eq!(is_nan(a.to_bits()), a.is_nan());
        assert_eq!(is_finite(a.to_bits()), a.is_finite());
        for b in values {
            assert_eq!(is_lt(a.to_bits(), b.to_bits()), a < b, "{} < {}", a, b);
            assert_eq!(is_le(a.to_bits(), b.to_bits()), a <= b, "{} <= {}", a, b);
            assert_eq!(is_same(a.to_bits(), b.to_bits()), a == b, "{} == {}", a, b);
            let low = f32::from_bits(min(a.to_bits(), b.to_bits()));
            let high = f32::from_bits(max(a.to_bits(), b.to_bits()));
            if a.is_nan() && b.is_nan() {
                assert!(low.is_nan() && high.is_nan());
            } else {
                assert_eq!(low, a.min(b));
                assert_eq!(high, a.max(b));
            }
        }
    }
}

#[test]
fn clamping_is_that_of_the_numbers() {
    for value in [-2.0f32, -1.0, -0.5, 0.0, 0.25, 1.0, 1.5, f32::INFINITY] {
        let clamped = clamp(value.to_bits(), (-1.0f32).to_bits(), 1.0f32.to_bits());
        assert_eq!(f32::from_bits(clamped), value.clamp(-1.0, 1.0));
    }
    let nan = clamp(f32::NAN.to_bits(), 0, 1.0f32.to_bits());
    assert!(f32::from_bits(nan).is_nan());
}
