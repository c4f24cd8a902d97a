//! An exact-arithmetic pi benchmark core: rational numbers over
//! arbitrary-precision integers, an alternating arctangent series, and a
//! Machin-type combination that renders pi to a requested number of decimal
//! digits.

use vstd::prelude::*;

pub mod bigint;
pub mod digits;
pub mod rational;
pub mod series;
pub mod estimator;

verus! {

/// The failures the core can report: a rational constructed over a zero
/// denominator, or a precision request beyond what the machine integers
/// driving the series can count.
#[derive(Clone, Copy, Debug, PartialEq, Eq, Structural)]
pub enum PiBenchError {
    DivisionByZero,
    PrecisionOverflow,
}

} // verus!
