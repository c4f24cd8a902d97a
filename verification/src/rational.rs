//! Exact fractions over arbitrary-precision integers. A `Rational` is a
//! signed numerator over a positive denominator; it need not be reduced, and
//! every operation builds a new value from exact integer arithmetic.

use vstd::prelude::*;
use vstd::math::abs;
use vstd::arithmetic::power::pow;
use crate::bigint::{big_int_value, big_from_i64, big_clone, big_add, big_mul, big_neg, big_lt,
    big_div, big_rem, big_pow, big_to_decimal};
use crate::PiBenchError;

verus! {

pub struct Rational {
    num: num_bigint::BigInt,
    den: num_bigint::BigInt,
}

/// The numerator of the exact sum of two fractions over the product
/// denominator.
pub open spec fn sum_num(n1: int, d1: int, n2: int, d2: int) -> int {
    n1 * d2 + n2 * d1
}

/// Two fractions are value-equal exactly when cross-multiplication agrees
/// (for positive denominators).
pub open spec fn rat_eq(n1: int, d1: int, n2: int, d2: int) -> bool {
    n1 * d2 == n2 * d1
}

/// The first fraction is strictly below the second (for positive
/// denominators), by cross-multiplication.
pub open spec fn rat_lt(n1: int, d1: int, n2: int, d2: int) -> bool {
    n1 * d2 < n2 * d1
}

/// Law: `add` is commutative up to exact value equality: swapping the
/// operands of the exact sum gives the same rational value.
pub proof fn lemma_add_commutative(n1: int, d1: int, n2: int, d2: int)
    requires
        d1 > 0,
        d2 > 0,
    ensures
        rat_eq(sum_num(n1, d1, n2, d2), d1 * d2, sum_num(n2, d2, n1, d1), d2 * d1),
{
    assert((n1 * d2 + n2 * d1) * (d2 * d1) == (n2 * d1 + n1 * d2) * (d1 * d2))
        by (nonlinear_arith);
}

/// Law: `add` is associative up to exact value equality: summing three
/// rationals groups either way to the same value.
#[verifier::rlimit(100)]
pub proof fn lemma_add_associative(n1: int, d1: int, n2: int, d2: int, n3: int, d3: int)
    requires
        d1 > 0,
        d2 > 0,
        d3 > 0,
    ensures
        rat_eq(sum_num(sum_num(n1, d1, n2, d2), d1 * d2, n3, d3), (d1 * d2) * d3,
            sum_num(n1, d1, sum_num(n2, d2, n3, d3), d2 * d3), d1 * (d2 * d3)),
{
    assert(((n1 * d2 + n2 * d1) * d3 + n3 * (d1 * d2)) * (d1 * (d2 * d3)) == (n1 * (d2 * d3) + (
    n2 * d3 + n3 * d2) * d1) * ((d1 * d2) * d3)) by (nonlinear_arith);
}

/// Law: `mul` is commutative up to exact value equality.
pub proof fn lemma_mul_commutative(n1: int, d1: int, n2: int, d2: int)
    requires
        d1 > 0,
        d2 > 0,
    ensures
        rat_eq(n1 * n2, d1 * d2, n2 * n1, d2 * d1),
{
    assert((n1 * n2) * (d2 * d1) == (n2 * n1) * (d1 * d2)) by (nonlinear_arith);
}

/// Law: `mul` is associative up to exact value equality.
pub proof fn lemma_mul_associative(n1: int, d1: int, n2: int, d2: int, n3: int, d3: int)
    requires
        d1 > 0,
        d2 > 0,
        d3 > 0,
    ensures
        rat_eq((n1 * n2) * n3, (d1 * d2) * d3, n1 * (n2 * n3), d1 * (d2 * d3)),
{
    assert(((n1 * n2) * n3) * (d1 * (d2 * d3)) == (n1 * (n2 * n3)) * ((d1 * d2) * d3))
        by (nonlinear_arith);
}

impl Rational {
    /// The numerator's integer value.
    pub closed spec fn num_int(self) -> int {
        big_int_value(self.num)
    }

    /// The denominator's integer value.
    pub closed spec fn den_int(self) -> int {
        big_int_value(self.den)
    }

    /// A well-formed rational keeps its denominator positive.
    pub open spec fn wf(self) -> bool {
        self.den_int() > 0
    }

    /// Builds a rational directly from big-integer parts; the denominator
    /// must already be positive.
    pub(crate) fn from_parts(num: num_bigint::BigInt, den: num_bigint::BigInt) -> (r: Rational)
        requires
            big_int_value(den) > 0,
        ensures
            r.wf(),
            r.num_int() == big_int_value(num),
            r.den_int() == big_int_value(den),
    {
        Rational { num, den }
    }

    /// The whole number `n` as a fraction over 1.
    pub fn from_integer(n: i64) -> (r: Rational)
        ensures
            r.wf(),
            r.num_int() == n as int,
            r.den_int() == 1,
    {
        Rational { num: big_from_i64(n), den: big_from_i64(1) }
    }

    /// A fraction from two machine integers. A zero denominator is refused
    /// with `DivisionByZero`; a negative one is folded into the numerator, so
    /// the result always keeps a positive denominator with the exact value
    /// `numerator / denominator`.
    pub fn new(numerator: i64, denominator: i64) -> (r: Result<Rational, PiBenchError>)
        ensures
            r is Ok <==> denominator != 0,
            r matches Ok(q) ==> q.wf() && q.num_int() * denominator == numerator * q.den_int(),
            r matches Err(e) ==> e == PiBenchError::DivisionByZero,
    {
        if denominator == 0 {
            Err(PiBenchError::DivisionByZero)
        } else if denominator < 0 {
            let n = big_neg(&big_from_i64(numerator));
            let d = big_neg(&big_from_i64(denominator));
            proof {
                vstd::arithmetic::mul::lemma_mul_unary_negation(numerator as int,
                    denominator as int);
            }
            Ok(Rational { num: n, den: d })
        } else {
            Ok(Rational { num: big_from_i64(numerator), den: big_from_i64(denominator) })
        }
    }

    /// A copy with the same numerator and denominator values.
    pub fn duplicate(&self) -> (r: Rational)
        ensures
            r.num_int() == self.num_int(),
            r.den_int() == self.den_int(),
    {
        Rational { num: big_clone(&self.num), den: big_clone(&self.den) }
    }

    /// Exact addition over the product denominator: no reduction, no
    /// rounding.
    pub fn add(&self, other: &Rational) -> (r: Rational)
        requires
            self.wf(),
            other.wf(),
        ensures
            r.wf(),
            r.num_int() == sum_num(self.num_int(), self.den_int(), other.num_int(),
                other.den_int()),
            r.den_int() == self.den_int() * other.den_int(),
    {
        proof {
            vstd::arithmetic::mul::lemma_mul_strictly_positive(self.den_int(), other.den_int());
        }
        let left = big_mul(&self.num, &other.den);
        let right = big_mul(&other.num, &self.den);
        Rational { num: big_add(&left, &right), den: big_mul(&self.den, &other.den) }
    }

    /// The same value with the numerator's sign flipped.
    pub fn negate(&self) -> (r: Rational)
        requires
            self.wf(),
        ensures
            r.wf(),
            r.num_int() == -self.num_int(),
            r.den_int() == self.den_int(),
    {
        Rational { num: big_neg(&self.num), den: big_clone(&self.den) }
    }

    /// Exact subtraction: the sum with the negated subtrahend.
    pub fn sub(&self, other: &Rational) -> (r: Rational)
        requires
            self.wf(),
            other.wf(),
        ensures
            r.wf(),
            r.num_int() == self.num_int() * other.den_int() - other.num_int() * self.den_int(),
            r.den_int() == self.den_int() * other.den_int(),
    {
        let r = self.add(&other.negate());
        proof {
            vstd::arithmetic::mul::lemma_mul_unary_negation(other.num_int(), self.den_int());
        }
        r
    }

    /// Exact multiplication: the products of numerators and denominators.
    pub fn mul(&self, other: &Rational) -> (r: Rational)
        requires
            self.wf(),
            other.wf(),
        ensures
            r.wf(),
            r.num_int() == self.num_int() * other.num_int(),
            r.den_int() == self.den_int() * other.den_int(),
    {
        proof {
            vstd::arithmetic::mul::lemma_mul_strictly_positive(self.den_int(), other.den_int());
        }
        Rational { num: big_mul(&self.num, &other.num), den: big_mul(&self.den, &other.den) }
    }

    /// Renders the fraction as a truncated decimal string with exactly
    /// `precision` fractional digits: integer division of
    /// `|numerator| * 10^precision` by the denominator, the decimal point
    /// inserted `precision` digits from the right, and a `-` prefix for a
    /// negative value. The last digit is truncated, never rounded; a caller
    /// that wants rounding must ask for a guard digit and drop it itself.
    pub fn to_decimal_string(&self, precision: u64) -> (s: String)
        requires
            self.wf(),
        ensures
            s@ == crate::digits::dec_string(self.num_int(), self.den_int(), precision as nat),
    {
        let ghost p: nat = precision as nat;
        proof {
            vstd::arithmetic::power::lemma_pow_positive(10, p);
        }
        let ten = big_from_i64(10);
        let p10 = big_pow(&ten, precision);
        let zero = big_from_i64(0);
        let neg = big_lt(&self.num, &zero);
        let a = if neg {
            big_neg(&self.num)
        } else {
            big_clone(&self.num)
        };
        proof {
            assert(big_int_value(a) == abs(self.num_int()));
            vstd::arithmetic::mul::lemma_mul_nonnegative(big_int_value(a), pow(10, p));
        }
        let scaled = big_mul(&a, &p10);
        let q = big_div(&scaled, &self.den);
        proof {
            vstd::arithmetic::div_mod::lemma_div_pos_is_pos(big_int_value(scaled),
                self.den_int());
        }
        let ghost qv: int = big_int_value(q);
        proof {
            vstd::arithmetic::div_mod::lemma_div_pos_is_pos(qv, pow(10, p));
        }
        let mut out = String::from_str("");
        if neg {
            out.append("-");
        }
        let ghost sign_seq: Seq<char> = if self.num_int() < 0 {
            seq!['-']
        } else {
            Seq::empty()
        };
        proof {
            reveal_strlit("");
            reveal_strlit("-");
            assert(out@ =~= sign_seq);
        }
        let ip = big_div(&q, &p10);
        let ip_str = big_to_decimal(&ip);
        out.append(ip_str.as_str());
        if precision > 0 {
            out.append(".");
            let fp = big_rem(&q, &p10);
            proof {
                vstd::arithmetic::div_mod::lemma_mod_bound(qv, pow(10, p));
            }
            let fp_str = big_to_decimal(&fp);
            let ghost fpv: nat = big_int_value(fp) as nat;
            proof {
                crate::digits::lemma_dec_digits_len(fpv, p);
                reveal_strlit(".");
            }
            let digits_len = fp_str.as_str().unicode_len();
            let ghost head: Seq<char> = out@;
            let mut zeros_done: u64 = digits_len as u64;
            while zeros_done < precision
                invariant
                    digits_len as u64 <= zeros_done <= precision,
                    digits_len == crate::digits::dec_digits(fpv).len(),
                    out@ == head + crate::digits::zero_chars(
                        (zeros_done - digits_len as u64) as nat),
                decreases precision - zeros_done,
            {
                out.append("0");
                zeros_done = zeros_done + 1;
                proof {
                    reveal_strlit("0");
                    assert(out@ =~= head + crate::digits::zero_chars(
                        (zeros_done - digits_len as u64) as nat));
                }
            }
            out.append(fp_str.as_str());
            proof {
                assert(out@ =~= crate::digits::dec_string(self.num_int(), self.den_int(), p));
            }
        } else {
            proof {
                assert(out@ =~= crate::digits::dec_string(self.num_int(), self.den_int(), p));
            }
        }
        out
    }

    /// Whether the two fractions hold exactly the same value, decided by
    /// cross-multiplication; representations need not match.
    pub fn eq_value(&self, other: &Rational) -> (r: bool)
        requires
            self.wf(),
            other.wf(),
        ensures
            r <==> rat_eq(self.num_int(), self.den_int(), other.num_int(), other.den_int()),
    {
        let lhs = big_mul(&self.num, &other.den);
        let rhs = big_mul(&other.num, &self.den);
        !big_lt(&lhs, &rhs) && !big_lt(&rhs, &lhs)
    }

    /// Whether `|self| > |other|`, decided by cross-multiplying the
    /// magnitudes of the numerators against the denominators, with no
    /// conversion out of exact arithmetic.
    pub fn abs_greater_than(&self, other: &Rational) -> (r: bool)
        requires
            self.wf(),
            other.wf(),
        ensures
            r <==> abs(self.num_int()) * other.den_int() > abs(other.num_int()) * self.den_int(),
    {
        let zero = big_from_i64(0);
        let a = if big_lt(&self.num, &zero) {
            big_neg(&self.num)
        } else {
            big_clone(&self.num)
        };
        let b = if big_lt(&other.num, &zero) {
            big_neg(&other.num)
        } else {
            big_clone(&other.num)
        };
        let lhs = big_mul(&a, &other.den);
        let rhs = big_mul(&b, &self.den);
        big_lt(&rhs, &lhs)
    }
}

} // verus!
