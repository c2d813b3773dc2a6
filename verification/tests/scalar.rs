use raytracer::scalar::{less_than, order_key, INFINITY, SIGN};
use std::cmp::Ordering;

fn samples() -> Vec<f64> {
    vec![
        0.0,
        -0.0,
        1.0,
        -1.0,
        0.5,
        -0.5,
        0.0001,
        -0.0001,
        555.0,
        -1000.0,
        1e-310,
        -1e-310,
        5e-324,
        -5e-324,
        f64::MIN_POSITIVE,
        -f64::MIN_POSITIVE,
        f64::MAX,
        f64::MIN,
        f64::EPSILON,
        1.0 + f64::EPSILON,
        f64::INFINITY,
        f64::NEG_INFINITY,
        f64::NAN,
        -f64::NAN,
        f64::from_bits(0x7ff0_0000_0000_0001),
        f64::from_bits(0xffff_ffff_ffff_ffff),
        f64::from_bits(0x7fff_ffff_ffff_ffff),
    ]
}

#[test]
fn constants_are_the_bits_of_the_numbers() {
    assert_eq!(SIGN, (-0.0f64).to_bits());
    assert_eq!(INFINITY, f64::INFINITY.to_bits());
}

#[test]
fn less_than_is_the_comparison_of_numbers() {
    for a in samples() {
        for b in samples() {
            assert_eq!(less_than(a.to_bits(), b.to_bits()), a < b, "{a} < {b}");
        }
    }
}

#[test]
fn less_than_on_chosen_numbers() {
    assert!(less_than(1.0f64.to_bits(), 2.0f64.to_bits()));
    assert!(!less_than(2.0f64.to_bits(), 1.0f64.to_bits()));
    assert!(less_than((-2.0f64).to_bits(), (-1.0f64).to_bits()));
    assert!(less_than((-1.0f64).to_bits(), 1.0f64.to_bits()));
    assert!(!less_than(1.0f64.to_bits(), 1.0f64.to_bits()));
}

#[test]
fn the_two_zeros_are_equal_as_numbers() {
    assert!(!less_than((-0.0f64).to_bits(), 0.0f64.to_bits()));
    assert!(!less_than(0.0f64.to_bits(), (-0.0f64).to_bits()));
}

#[test]
fn nothing_is_less_than_what_is_not_a_number() {
    for a in samples() {
        assert!(!less_than(a.to_bits(), f64::NAN.to_bits()));
        assert!(!less_than(f64::NAN.to_bits(), a.to_bits()));
    }
}

#[test]
fn infinities_are_the_ends_of_the_numbers() {
    assert!(less_than(f64::MAX.to_bits(), f64::INFINITY.to_bits()));
    assert!(less_than(f64::NEG_INFINITY.to_bits(), f64::MIN.to_bits()));
    assert!(less_than(f64::NEG_INFINITY.to_bits(), f64::INFINITY.to_bits()));
}

#[test]
fn order_key_is_the_total_order() {
    for a in samples() {
        for b in samples() {
            let by_key = order_key(a.to_bits()) < order_key(b.to_bits());
            assert_eq!(by_key, a.total_cmp(&b) == Ordering::Less, "{a} before {b}");
            let same = order_key(a.to_bits()) == order_key(b.to_bits());
            assert_eq!(same, a.total_cmp(&b) == Ordering::Equal, "{a} beside {b}");
        }
    }
}

#[test]
fn order_key_on_chosen_patterns() {
    assert_eq!(order_key(0), 0);
    assert_eq!(order_key(SIGN), -1);
    assert_eq!(order_key(1), 1);
    assert_eq!(order_key(SIGN + 1), -2);
    assert_eq!(order_key(0x7fff_ffff_ffff_ffff), i64::MAX);
    assert_eq!(order_key(0xffff_ffff_ffff_ffff), i64::MIN);
    assert_eq!(order_key(1.0f64.to_bits()), 0x3ff0_0000_0000_0000);
}

#[test]
fn order_key_puts_minus_zero_below_plus_zero() {
    assert!(order_key((-0.0f64).to_bits()) < order_key(0.0f64.to_bits()));
}

#[test]
fn less_or_equal_is_the_comparison_of_numbers() {
    for a in samples() {
        for b in samples() {
            assert_eq!(
                raytracer::scalar::less_or_equal(a.to_bits(), b.to_bits()),
                a <= b,
                "{a} <= {b}"
            );
        }
    }
}

#[test]
fn within_is_not_outside() {
    for x in samples() {
        for low in samples() {
            for high in samples() {
                assert_eq!(
                    raytracer::scalar::within(x.to_bits(), low.to_bits(), high.to_bits()),
                    !(x < low || x > high),
                    "{x} in {low} .. {high}"
                );
            }
        }
    }
}

#[test]
fn within_includes_both_ends() {
    let within = |x: f64, low: f64, high: f64| {
        raytracer::scalar::within(x.to_bits(), low.to_bits(), high.to_bits())
    };
    assert!(within(0.0, 0.0, 555.0));
    assert!(within(555.0, 0.0, 555.0));
    assert!(within(277.5, 0.0, 555.0));
    assert!(!within(-0.0001, 0.0, 555.0));
    assert!(!within(555.0001, 0.0, 555.0));
    assert!(within(f64::NAN, 0.0, 555.0));
}

#[test]
fn key_of_is_missing_exactly_for_what_is_not_a_number() {
    for x in samples() {
        assert_eq!(raytracer::scalar::key_of(x.to_bits()).is_none(), x.is_nan(), "{x}");
    }
}

#[test]
fn key_of_orders_as_the_numbers_compare() {
    let numbers: Vec<f64> = samples().into_iter().filter(|x| !x.is_nan()).collect();
    for a in &numbers {
        for b in &numbers {
            let (ka, kb) = (
                raytracer::scalar::key_of(a.to_bits()).unwrap(),
                raytracer::scalar::key_of(b.to_bits()).unwrap(),
            );
            assert_eq!(ka < kb, a < b, "{a} < {b}");
            assert_eq!(ka == kb, a == b, "{a} == {b}");
        }
    }
}
