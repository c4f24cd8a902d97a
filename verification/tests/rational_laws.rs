use pi_bench::rational::Rational;
use pi_bench::PiBenchError;

fn frac(n: i64, d: i64) -> Rational {
    Rational::new(n, d).unwrap()
}

#[test]
fn zero_denominator_is_refused() {
    assert!(matches!(Rational::new(5, 0), Err(PiBenchError::DivisionByZero)));
    assert!(matches!(Rational::new(0, 0), Err(PiBenchError::DivisionByZero)));
    assert!(Rational::new(0, 1).is_ok());
}

#[test]
fn decimal_rendering_truncates() {
    assert_eq!(frac(1, 3).to_decimal_string(5), "0.33333");
    assert_eq!(frac(2, 3).to_decimal_string(5), "0.66666");
    assert_eq!(frac(1, 3).to_decimal_string(0), "0");
    assert_eq!(frac(7, 2).to_decimal_string(0), "3");
    assert_eq!(frac(-7, 4).to_decimal_string(2), "-1.75");
    assert_eq!(frac(1, -2).to_decimal_string(1), "-0.5");
    assert_eq!(frac(0, 5).to_decimal_string(2), "0.00");
    assert_eq!(frac(1, 8).to_decimal_string(4), "0.1250");
    assert_eq!(Rational::from_integer(16).to_decimal_string(0), "16");
    assert_eq!(Rational::from_integer(-3).to_decimal_string(3), "-3.000");
    // a negative value whose truncation is zero keeps its sign
    assert_eq!(frac(-1, 30).to_decimal_string(1), "-0.0");
    // the fractional block is zero-padded on the left
    assert_eq!(frac(1, 1000).to_decimal_string(5), "0.00100");
}

#[test]
fn retruncation_is_idempotent() {
    // 1/3 truncated to five digits denotes 33333/100000; truncating that
    // again at three digits equals truncating 1/3 at three digits directly
    assert_eq!(frac(1, 3).to_decimal_string(5), "0.33333");
    let truncated = frac(33333, 100000);
    assert_eq!(truncated.to_decimal_string(3), frac(1, 3).to_decimal_string(3));
    assert_eq!(truncated.to_decimal_string(5), "0.33333");
    // same at equal precision for a value that was already exact
    let exact = frac(1250, 10000);
    assert_eq!(exact.to_decimal_string(4), frac(1, 8).to_decimal_string(4));
}

#[test]
fn arithmetic_is_exact() {
    let sum = frac(1, 2).add(&frac(1, 3));
    assert_eq!(sum.to_decimal_string(6), "0.833333");
    assert!(sum.eq_value(&frac(5, 6)));
    let diff = frac(1, 2).sub(&frac(1, 3));
    assert!(diff.eq_value(&frac(1, 6)));
    assert_eq!(diff.to_decimal_string(4), "0.1666");
    let prod = frac(2, 3).mul(&frac(3, 4));
    assert!(prod.eq_value(&frac(1, 2)));
    assert_eq!(prod.to_decimal_string(2), "0.50");
    let neg = frac(3, 7).negate();
    assert!(neg.eq_value(&frac(-3, 7)));
}

#[test]
fn magnitude_comparison_ignores_sign() {
    assert!(frac(-3, 4).abs_greater_than(&frac(1, 2)));
    assert!(!frac(1, 2).abs_greater_than(&frac(-3, 4)));
    assert!(frac(1, 2).abs_greater_than(&frac(-1, 3)));
    assert!(!frac(1, 2).abs_greater_than(&frac(-1, 2)));
    assert!(!frac(0, 9).abs_greater_than(&frac(0, 2)));
}

#[test]
fn add_and_mul_are_commutative_and_associative() {
    let triples: [(i64, i64); 9] = [
        (1, 2),
        (3, 5),
        (-7, 11),
        (0, 4),
        (9, 9),
        (-2, 6),
        (10, 3),
        (-5, -8),
        (123, 456),
    ];
    for w in triples.windows(3) {
        let a = frac(w[0].0, w[0].1);
        let b = frac(w[1].0, w[1].1);
        let c = frac(w[2].0, w[2].1);
        assert!(a.add(&b).eq_value(&b.add(&a)));
        assert!(a.mul(&b).eq_value(&b.mul(&a)));
        assert!(a.add(&b).add(&c).eq_value(&a.add(&b.add(&c))));
        assert!(a.mul(&b).mul(&c).eq_value(&a.mul(&b.mul(&c))));
    }
}

#[test]
fn duplicate_keeps_the_value() {
    let a = frac(22, 7);
    let b = a.duplicate();
    assert!(a.eq_value(&b));
    assert_eq!(b.to_decimal_string(3), "3.142");
}
