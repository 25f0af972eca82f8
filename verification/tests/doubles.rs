//! Floating-point numbers by their encoding.

use dagger::double::{
    Double, EIGHTY, FIFTY, HALF, HUNDRED, NINETY, NINETY_FIVE, NINE_TENTHS, ONE, ONE_TENTH, SEVEN_TENTHS, THREE_TENTHS, TWO,
    TWO_TENTHS, ZERO,
};

#[test]
fn encodings_are_those_of_the_numbers() {
    let pairs = [
        (ZERO, 0.0),
        (ONE_TENTH, 0.1),
        (TWO_TENTHS, 0.2),
        (THREE_TENTHS, 0.3),
        (HALF, 0.5),
        (SEVEN_TENTHS, 0.7),
        (NINE_TENTHS, 0.9),
        (ONE, 1.0),
        (TWO, 2.0),
        (FIFTY, 50.0),
        (EIGHTY, 80.0),
        (NINETY, 90.0),
        (NINETY_FIVE, 95.0),
        (HUNDRED, 100.0),
    ];
    for (bits, number) in pairs {
        assert_eq!(bits, f64::to_bits(number));
    }
}

#[test]
fn comparison_is_that_of_the_numbers() {
    let numbers = [
        f64::NEG_INFINITY,
        f64::MIN,
        -2.5,
        -1.0,
        -f64::MIN_POSITIVE,
        -5e-324,
        -0.0,
        0.0,
        5e-324,
        f64::MIN_POSITIVE,
        0.1,
        1.0,
        90.0,
        f64::MAX,
        f64::INFINITY,
        f64::NAN,
        -f64::NAN,
    ];
    for a in numbers {
        for b in numbers {
            let x = Double { bits: a.to_bits() };
            let y = Double { bits: b.to_bits() };
            assert_eq!(x.lt(y), a < b, "{} < {}", a, b);
            assert_eq!(x.le(y), a <= b, "{} <= {}", a, b);
            let most = f64::from_bits(x.max(y).bits);
            let expected = a.max(b);
            assert!(most == expected || (most.is_nan() && expected.is_nan()), "max of {} and {}", a, b);
        }
    }
}
