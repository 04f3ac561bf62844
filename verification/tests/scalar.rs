use limn_layout::scalar::{
    Scalar, INFINITY_BITS, MEDIUM_BITS, ONE_BITS, REQUIRED_BITS, SIGN_BIT, STRONG_BITS, WEAK_BITS,
};

fn num(x: f64) -> Scalar {
    Scalar::from_bits(x.to_bits())
}

fn samples() -> Vec<f64> {
    vec![
        0.0,
        -0.0,
        1.0,
        -1.0,
        0.5,
        -0.5,
        2.0,
        1000.0,
        1e6,
        1_001_001_000.0,
        -1e300,
        1e300,
        f64::MIN_POSITIVE,
        -f64::MIN_POSITIVE,
        5e-324,
        f64::INFINITY,
        f64::NEG_INFINITY,
        f64::NAN,
        -f64::NAN,
        f64::MAX,
        f64::MIN,
    ]
}

#[test]
fn scalar_keeps_its_bits() {
    let bits = 100.0f64.to_bits();
    assert_eq!(Scalar::from_bits(bits).to_bits(), bits);
    assert_eq!(Scalar::from_bits(bits).bits, bits);
}

#[test]
fn less_than_orders_patterns_as_doubles() {
    for &a in &samples() {
        for &b in &samples() {
            assert_eq!(num(a).less_than(num(b)), a < b, "{} < {}", a, b);
        }
    }
}

#[test]
fn equals_compares_patterns_as_doubles() {
    for &a in &samples() {
        for &b in &samples() {
            assert_eq!(num(a).equals(num(b)), a == b, "{} == {}", a, b);
        }
    }
}

#[test]
fn is_nan_tells_numbers_from_the_rest() {
    for &a in &samples() {
        assert_eq!(num(a).is_nan(), a.is_nan(), "{}", a);
    }
}

#[test]
fn named_numbers_have_their_patterns() {
    assert_eq!(Scalar::zero(), num(0.0));
    assert_eq!(Scalar::one(), num(1.0));
    assert_eq!(Scalar::minus_one(), num(-1.0));
    assert_eq!(ONE_BITS, 1.0f64.to_bits());
    assert_eq!(SIGN_BIT, (-0.0f64).to_bits());
    assert_eq!(INFINITY_BITS, f64::INFINITY.to_bits());
}

#[test]
fn strengths_are_those_of_the_engine() {
    assert_eq!(Scalar::weak(), num(cassowary::strength::WEAK));
    assert_eq!(Scalar::medium(), num(cassowary::strength::MEDIUM));
    assert_eq!(Scalar::strong(), num(cassowary::strength::STRONG));
    assert_eq!(Scalar::required(), num(cassowary::strength::REQUIRED));
    assert_eq!(WEAK_BITS, cassowary::strength::WEAK.to_bits());
    assert_eq!(MEDIUM_BITS, cassowary::strength::MEDIUM.to_bits());
    assert_eq!(STRONG_BITS, cassowary::strength::STRONG.to_bits());
    assert_eq!(REQUIRED_BITS, cassowary::strength::REQUIRED.to_bits());
}
