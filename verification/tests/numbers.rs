use my_ast_interpreter::number::{number_below_epsilon, number_less, number_less_equal, number_negated};

fn samples() -> Vec<f64> {
    vec![
        0.0,
        -0.0,
        1.0,
        -1.0,
        0.5,
        -0.5,
        2.0,
        1e300,
        -1e300,
        1e-300,
        -1e-300,
        f64::MIN_POSITIVE,
        5e-324,
        -5e-324,
        f64::MAX,
        f64::MIN,
        f64::INFINITY,
        f64::NEG_INFINITY,
        f64::NAN,
        -f64::NAN,
        f64::EPSILON,
        -f64::EPSILON,
        f64::EPSILON / 2.0,
        f64::EPSILON * 1.5,
        3.0,
        7.0,
        9.0,
    ]
}

#[test]
fn less_agrees_with_the_host_on_every_pair() {
    for a in samples() {
        for b in samples() {
            assert_eq!(number_less(a.to_bits(), b.to_bits()), a < b, "{} < {}", a, b);
        }
    }
}

#[test]
fn less_equal_agrees_with_the_host_on_every_pair() {
    for a in samples() {
        for b in samples() {
            assert_eq!(number_less_equal(a.to_bits(), b.to_bits()), a <= b, "{} <= {}", a, b);
        }
    }
}

#[test]
fn negation_flips_the_sign() {
    for a in samples() {
        assert_eq!(number_negated(a.to_bits()), (-a).to_bits());
    }
    assert_eq!(number_negated(1.0f64.to_bits()), (-1.0f64).to_bits());
    assert_eq!(number_negated(0), 0x8000_0000_0000_0000);
}

#[test]
fn below_epsilon_agrees_with_the_host() {
    for a in samples() {
        assert_eq!(number_below_epsilon(a.to_bits()), a.abs() < f64::EPSILON, "{}", a);
    }
    assert!(number_below_epsilon(0.0f64.to_bits()));
    assert!(!number_below_epsilon(f64::EPSILON.to_bits()));
    assert!(!number_below_epsilon(f64::NAN.to_bits()));
}

#[test]
fn zeros_are_neither_less_nor_greater() {
    let (plus, minus) = (0.0f64.to_bits(), (-0.0f64).to_bits());
    assert!(!number_less(minus, plus));
    assert!(!number_less(plus, minus));
    assert!(number_less_equal(minus, plus));
    assert!(number_less_equal(plus, minus));
}

#[test]
fn nothing_compares_with_nan() {
    let nan = f64::NAN.to_bits();
    assert!(!number_less(nan, nan));
    assert!(!number_less_equal(nan, nan));
    assert!(!number_less(1.0f64.to_bits(), nan));
    assert!(!number_less_equal(nan, f64::INFINITY.to_bits()));
}
