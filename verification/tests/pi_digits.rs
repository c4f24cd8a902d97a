use pi_bench::estimator::{compute, PiCalcTest, MAX_PRECISION};
use pi_bench::series::arctan_series;
use pi_bench::PiBenchError;

#[test]
fn compute_five_digits() {
    assert_eq!(compute(5).unwrap(), "3.14159");
}

#[test]
fn compute_zero_digits() {
    assert_eq!(compute(0).unwrap(), "3");
}

#[test]
fn compute_matches_reference_digits() {
    let s = compute(50).unwrap();
    assert_eq!(s, "3.14159265358979323846264338327950288419716939937510");
}

#[test]
fn raising_precision_keeps_leading_digits() {
    let shorter = compute(7).unwrap();
    let longer = compute(8).unwrap();
    assert_eq!(shorter, "3.1415926");
    assert!(longer.starts_with(&shorter));
    for p in 0..12u64 {
        let a = compute(p).unwrap();
        let b = compute(p + 1).unwrap();
        assert!(b.starts_with(&a));
    }
}

#[test]
fn precision_overflow_is_reported() {
    assert_eq!(compute(u64::MAX), Err(PiBenchError::PrecisionOverflow));
    assert_eq!(compute(MAX_PRECISION + 1), Err(PiBenchError::PrecisionOverflow));
}

#[test]
fn benchmark_test_fixed_configuration() {
    let t = PiCalcTest::new();
    assert_eq!(t.name(), "PiCalculator");
    assert_eq!(t.precision(), 100);
    let digits = t.digits().unwrap();
    assert_eq!(digits.len(), 102);
    assert!(digits.starts_with("3.14159265358979323846"));
    assert!(digits.ends_with("3421170679"));
}

#[test]
fn series_iteration_counts_stay_in_bound() {
    // the verified bound: never more than 2p + 1 terms
    let (_, count5) = arctan_series(5, 100);
    let (_, count239) = arctan_series(239, 100);
    assert!(count5 <= 201);
    assert!(count239 <= 201);
    // the observed counts follow p / log10(k): roughly 72 terms for k = 5
    // and 21 for k = 239 at 100 digits
    assert!((60..=80).contains(&count5));
    assert!((15..=30).contains(&count239));
    assert!(count239 < count5);
    // a larger base converges in fewer terms at every precision
    let (_, a) = arctan_series(5, 20);
    let (_, b) = arctan_series(239, 20);
    assert!(b <= a);
}
