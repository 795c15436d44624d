use diysynth::{Binary32, FloatComponent};

fn number(value: f32) -> Binary32 {
    Binary32::from_bits(value.to_bits())
}

fn interesting() -> Vec<f32> {
    vec![
        f32::NEG_INFINITY,
        f32::MIN,
        -44100.0,
        -1.0000001,
        -1.0,
        -0.99999994,
        -0.5,
        -1.0e-30,
        -f32::MIN_POSITIVE,
        -f32::from_bits(0x007f_ffff),
        -f32::from_bits(1),
        -0.0,
        0.0,
        f32::from_bits(1),
        f32::from_bits(0x007f_ffff),
        f32::MIN_POSITIVE,
        1.0e-30,
        0.5,
        0.99999994,
        1.0,
        1.0000001,
        44100.0,
        f32::MAX,
        f32::INFINITY,
        f32::NAN,
        -f32::NAN,
    ]
}

#[test]
fn bits_round_trip() {
    for value in interesting() {
        assert_eq!(number(value).to_bits(), value.to_bits());
    }
    assert_eq!(Binary32::from_bits(0x3f80_0000).to_bits(), 1.0f32.to_bits());
}

#[test]
fn classification_follows_the_value() {
    for value in interesting() {
        let x = number(value);
        assert_eq!(x.is_nan(), value.is_nan(), "{value:?}");
        assert_eq!(x.is_infinite(), value.is_infinite(), "{value:?}");
        assert_eq!(x.is_finite(), value.is_finite(), "{value:?}");
        assert_eq!(x.is_zero(), value == 0.0, "{value:?}");
        assert_eq!(x.is_sign_negative(), value.is_sign_negative(), "{value:?}");
    }
}

#[test]
fn order_follows_the_values() {
    for a in interesting() {
        for b in interesting() {
            assert_eq!(number(a).lt(number(b)), a < b, "{a:?} < {b:?}");
            assert_eq!(number(a).le(number(b)), a <= b, "{a:?} <= {b:?}");
        }
    }
}

#[test]
fn decode_gives_significand_and_scale() {
    // 1.0 = 2^23 * 2^126 * 2^-149
    assert_eq!(number(1.0).decode(), (0x80_0000, 126));
    // 0.5 = 2^23 * 2^125 * 2^-149
    assert_eq!(number(0.5).decode(), (0x80_0000, 125));
    // 1.5 = (2^23 + 2^22) * 2^126 * 2^-149
    assert_eq!(number(-1.5).decode(), (0xc0_0000, 126));
    // The smallest subnormal is one unit.
    assert_eq!(Binary32::from_bits(1).decode(), (1, 0));
    // The smallest normal number is 2^23 units.
    assert_eq!(number(f32::MIN_POSITIVE).decode(), (0x80_0000, 0));
    assert_eq!(number(0.0).decode(), (0, 0));
    assert_eq!(number(f32::MAX).decode(), (0xff_ffff, 253));
    assert_eq!(number(-2.0).magnitude_bits(), 2.0f32.to_bits());
}

#[test]
fn clamp_holds_a_value_between_the_bounds() {
    let low = number(-1.0);
    let high = number(1.0);
    let clamp = |v: f32| f32::from_bits(Binary32::clamp_component(number(v), low, high).to_bits());
    assert_eq!(clamp(0.25), 0.25);
    assert_eq!(clamp(-0.75), -0.75);
    assert_eq!(clamp(1.0), 1.0);
    assert_eq!(clamp(-1.0), -1.0);
    assert_eq!(clamp(1.5), 1.0);
    assert_eq!(clamp(-1.5), -1.0);
    assert_eq!(clamp(f32::INFINITY), 1.0);
    assert_eq!(clamp(f32::NEG_INFINITY), -1.0);
    assert!(clamp(f32::NAN).is_nan());
    // A zero keeps its sign.
    assert_eq!(clamp(-0.0).to_bits(), (-0.0f32).to_bits());
}

#[test]
fn clamp_agrees_with_comparing_the_values() {
    for n in interesting() {
        for (min, max) in [(-1.0f32, 1.0f32), (0.0, 255.0), (-32768.0, 32767.0)] {
            let expected = if n < min {
                min
            } else if n > max {
                max
            } else {
                n
            };
            let got = Binary32::clamp_component(number(n), number(min), number(max));
            assert_eq!(got.to_bits(), expected.to_bits(), "{n:?} in {min:?}..{max:?}");
        }
    }
}
