use air_quality_store::Measure;

fn of(x: f64) -> Measure {
    Measure::from_bits(x.to_bits())
}

fn samples() -> Vec<f64> {
    vec![
        0.0,
        -0.0,
        1.0,
        -1.0,
        0.5,
        -0.5,
        1e-320,
        -1e-320,
        f64::MIN_POSITIVE,
        -f64::MIN_POSITIVE,
        f64::EPSILON,
        123456.789,
        -123456.789,
        f64::MAX,
        f64::MIN,
        f64::INFINITY,
        f64::NEG_INFINITY,
        f64::NAN,
        -f64::NAN,
        f64::from_bits(0x7ff0_0000_0000_0001),
        f64::from_bits(0xfff8_0000_0000_0000),
        2.0,
        2.0000000000000004,
        1.9999999999999998,
    ]
}

#[test]
fn le_agrees_with_the_numbers() {
    for a in samples() {
        for b in samples() {
            assert_eq!(of(a).le(&of(b)), a <= b, "{:?} <= {:?}", a, b);
        }
    }
}

#[test]
fn in_range_agrees_with_the_numbers() {
    for x in samples() {
        for min in samples() {
            for max in samples() {
                let expected = x >= min && x <= max;
                assert_eq!(of(x).in_range(&of(min), &of(max)), expected);
            }
        }
    }
}

#[test]
fn zeros_are_equal_in_order_but_not_in_bits() {
    assert!(of(0.0).le(&of(-0.0)));
    assert!(of(-0.0).le(&of(0.0)));
    assert_ne!(of(0.0), of(-0.0));
    assert_eq!(Measure::zero(), of(0.0));
    assert_eq!(Measure::default().to_bits(), 0);
}

#[test]
fn nan_is_in_no_range() {
    let nan = of(f64::NAN);
    assert!(!nan.le(&nan));
    assert!(!nan.in_range(&of(f64::NEG_INFINITY), &of(f64::INFINITY)));
    assert!(!of(1.0).in_range(&nan, &of(2.0)));
    assert!(!of(1.0).in_range(&of(0.0), &nan));
}

#[test]
fn inverted_range_holds_nothing() {
    for x in samples() {
        assert!(!of(x).in_range(&of(2.0), &of(1.0)));
    }
}

#[test]
fn bits_round_trip() {
    assert_eq!(Measure::from_bits(0x4029_0000_0000_0000).to_bits(), 12.5f64.to_bits());
    assert_eq!(f64::from_bits(of(-3.75).to_bits()), -3.75);
}
