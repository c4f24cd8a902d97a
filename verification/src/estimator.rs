//! Pi to a caller-chosen number of truncated decimal digits, by the
//! two-term Machin identity pi = 16 atan(1/5) - 4 atan(1/239) evaluated in
//! exact rational arithmetic, with guard digits compensating the digit shift
//! each coefficient introduces.

use vstd::prelude::*;
use crate::rational::Rational;
use crate::series::{arctan_series, series_stops_at, psum_num, psum_den, MAX_SERIES_PRECISION};
use crate::digits::dec_string;
use crate::PiBenchError;

verus! {

/// The largest precision `compute` accepts: two guard digits must still fit
/// under the series walker's own bound.
pub const MAX_PRECISION: u64 = MAX_SERIES_PRECISION - 2;

/// The exact numerator of 16 atan(1/5) - 4 atan(1/239) over
/// `machin_den(m1, m2)`, where the two series were cut after `m1` and `m2`
/// terms.
pub open spec fn machin_num(m1: nat, m2: nat) -> int {
    16 * psum_num(5, m1) * psum_den(239, m2) - 4 * psum_num(239, m2) * psum_den(5, m1)
}

/// The exact denominator of the Machin combination: the product of the two
/// partial-sum denominators.
pub open spec fn machin_den(m1: nat, m2: nat) -> int {
    psum_den(5, m1) * psum_den(239, m2)
}

/// A string is a pi rendering for precision `p` if, for some pair of stop
/// counts, it is the truncated decimal rendering of the Machin combination
/// of the two partial sums cut exactly there.
pub open spec fn pi_string_ok(p: nat, s: Seq<char>) -> bool {
    exists|m1: nat, m2: nat| pi_string_form(p, s, m1, m2)
}

/// What `compute` promises of a returned string: it is the truncated decimal
/// rendering, at the requested precision, of the exact Machin combination of
/// the two partial sums, where each sub-series ran at its guard-digit
/// precision exactly until its next term fell to or below the threshold.
pub open spec fn pi_string_form(p: nat, s: Seq<char>, m1: nat, m2: nat) -> bool {
    &&& series_stops_at(5, p + 2, m1)
    &&& series_stops_at(239, p + 1, m2)
    &&& s == dec_string(machin_num(m1, m2), machin_den(m1, m2), p)
}

/// Computes pi to `precision` truncated decimal digits. The atan(1/5) series
/// runs with two guard digits (the coefficient 16 shifts up to two digits)
/// and the atan(1/239) series with one (for the coefficient 4); the exact
/// combination is then rendered by truncation. A precision beyond
/// `MAX_PRECISION` is refused with `PrecisionOverflow`, and nothing else
/// fails.
pub fn compute(precision: u64) -> (r: Result<String, PiBenchError>)
    ensures
        r is Ok <==> precision <= MAX_PRECISION,
        r matches Ok(s) ==> pi_string_ok(precision as nat, s@),
        r matches Err(e) ==> e == PiBenchError::PrecisionOverflow,
{
    if precision > MAX_PRECISION {
        return Err(PiBenchError::PrecisionOverflow);
    }
    let (atan5, m1) = arctan_series(5, precision + 2);
    let (atan239, m2) = arctan_series(239, precision + 1);
    let sixteen = Rational::from_integer(16);
    let four = Rational::from_integer(4);
    let left = sixteen.mul(&atan5);
    let right = four.mul(&atan239);
    let pi_approx = left.sub(&right);
    let s = pi_approx.to_decimal_string(precision);
    proof {
        assert(pi_approx.num_int() == machin_num(m1 as nat, m2 as nat));
        assert(pi_approx.den_int() == machin_den(m1 as nat, m2 as nat));
        assert(pi_string_form(precision as nat, s@, m1 as nat, m2 as nat));
        assert(pi_string_ok(precision as nat, s@));
    }
    Ok(s)
}

/// The pi-calculation benchmark workload: a fixed-precision pi computation
/// whose digits the harness discards after timing it.
#[derive(Clone, Copy)]
pub struct PiCalcTest {
    precision: u64,
}

impl PiCalcTest {
    /// The fixed number of decimal digits this benchmark instance computes.
    pub closed spec fn precision_of(self) -> u64 {
        self.precision
    }

    /// A benchmark instance at the reference precision of 100 decimal
    /// digits.
    pub fn new() -> (t: PiCalcTest)
        ensures
            t.precision_of() == 100,
    {
        PiCalcTest { precision: 100 }
    }

    /// The configured precision, for a harness that reports it.
    pub fn precision(&self) -> (p: u64)
        ensures
            p == self.precision_of(),
    {
        self.precision
    }

    /// The benchmark's fixed identifier.
    pub fn name(&self) -> (n: String)
        ensures
            n@ == "PiCalculator"@,
    {
        String::from_str("PiCalculator")
    }

    /// The timed workload: pi at the configured precision. The digits are
    /// returned so the caller can discard or inspect them; timing is the
    /// harness's business, not this core's.
    pub fn digits(&self) -> (r: Result<String, PiBenchError>)
        ensures
            r is Ok <==> self.precision_of() <= MAX_PRECISION,
            r matches Ok(s) ==> pi_string_ok(self.precision_of() as nat, s@),
            r matches Err(e) ==> e == PiBenchError::PrecisionOverflow,
    {
        compute(self.precision)
    }
}

} // verus!
