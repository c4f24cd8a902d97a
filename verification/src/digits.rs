//! Decimal renderings of natural numbers at the specification level: the
//! plain digit sequence of a number, and the fixed-width form used for the
//! fractional part of a truncated decimal string.

use vstd::prelude::*;
use vstd::arithmetic::power::pow;

verus! {

/// The character for a single decimal digit.
pub open spec fn digit_char(d: nat) -> char {
    if d == 0 {
        '0'
    } else if d == 1 {
        '1'
    } else if d == 2 {
        '2'
    } else if d == 3 {
        '3'
    } else if d == 4 {
        '4'
    } else if d == 5 {
        '5'
    } else if d == 6 {
        '6'
    } else if d == 7 {
        '7'
    } else if d == 8 {
        '8'
    } else {
        '9'
    }
}

/// The decimal digits of `n`, most significant first, with no sign and no
/// leading zero; zero itself renders as the single digit `0`.
pub open spec fn dec_digits(n: nat) -> Seq<char>
    decreases n,
{
    if n < 10 {
        seq![digit_char(n)]
    } else {
        dec_digits(n / 10).push(digit_char(n % 10))
    }
}

/// A run of `c` zero characters.
pub open spec fn zero_chars(c: nat) -> Seq<char> {
    Seq::new(c, |i: int| '0')
}

/// Exactly `width` decimal digits of `n % 10^width`, most significant first,
/// padded on the left with zeros.
pub open spec fn fixed_digits(n: nat, width: nat) -> Seq<char>
    decreases width,
{
    if width == 0 {
        Seq::empty()
    } else {
        fixed_digits(n / 10, (width - 1) as nat).push(digit_char(n % 10))
    }
}

/// The truncated decimal rendering of the fraction `num / den` (for
/// `den > 0`) with exactly `p` fractional digits: the sign, the digits of the
/// integer part, and for `p > 0` a point followed by the fractional digits of
/// `floor(|num| * 10^p / den)`, left-padded with zeros to width `p`. The
/// final digit is truncated, never rounded.
pub open spec fn dec_string(num: int, den: int, p: nat) -> Seq<char> {
    let q = (vstd::math::abs(num) * pow(10, p)) / den;
    let ip = q / pow(10, p);
    let fp = q % pow(10, p);
    let sign: Seq<char> = if num < 0 {
        seq!['-']
    } else {
        Seq::empty()
    };
    if p == 0 {
        sign + dec_digits(ip as nat)
    } else {
        sign + dec_digits(ip as nat) + seq!['.'] + zero_chars(
            (p - dec_digits(fp as nat).len()) as nat,
        ) + dec_digits(fp as nat)
    }
}

/// A number below `10^w` has at most `w` decimal digits (and at least one).
pub proof fn lemma_dec_digits_len(n: nat, w: nat)
    requires
        1 <= w,
        n < pow(10, w),
    ensures
        1 <= dec_digits(n).len() <= w,
    decreases w,
{
    vstd::arithmetic::power::lemma_pow1(10);
    if n < 10 {
        assert(dec_digits(n).len() == 1);
    } else {
        assert(pow(10, w) == 10 * pow(10, (w - 1) as nat)) by {
            vstd::arithmetic::power::lemma_pow_adds(10, 1, (w - 1) as nat);
            vstd::arithmetic::power::lemma_pow1(10);
        }
        assert(n / 10 < pow(10, (w - 1) as nat)) by {
            vstd::arithmetic::div_mod::lemma_fundamental_div_mod(n as int, 10);
        }
        assert(w >= 2) by {
            if w == 1 {
                assert(pow(10, 1) == 10) by {
                    vstd::arithmetic::power::lemma_pow1(10);
                }
            }
        }
        lemma_dec_digits_len(n / 10, (w - 1) as nat);
    }
}

/// Zero rendered at any fixed width is a run of zero characters.
pub proof fn lemma_fixed_zero(w: nat)
    ensures
        fixed_digits(0, w) == zero_chars(w),
    decreases w,
{
    if w == 0 {
        assert(fixed_digits(0, w) =~= zero_chars(w));
    } else {
        lemma_fixed_zero((w - 1) as nat);
        assert(fixed_digits(0, w) =~= zero_chars(w));
    }
}

/// For a number that fits in the width, the fixed-width form is the plain
/// digit sequence padded on the left with zeros.
pub proof fn lemma_fixed_eq_padded(n: nat, w: nat)
    requires
        1 <= w,
        n < pow(10, w),
    ensures
        dec_digits(n).len() <= w,
        fixed_digits(n, w) == zero_chars((w - dec_digits(n).len()) as nat) + dec_digits(n),
    decreases w,
{
    lemma_dec_digits_len(n, w);
    if n < 10 {
        lemma_fixed_zero((w - 1) as nat);
        assert(fixed_digits(n, w) =~= zero_chars((w - dec_digits(n).len()) as nat) + dec_digits(
            n));
    } else {
        assert(pow(10, w) == 10 * pow(10, (w - 1) as nat)) by {
            vstd::arithmetic::power::lemma_pow_adds(10, 1, (w - 1) as nat);
            vstd::arithmetic::power::lemma_pow1(10);
        }
        assert(n / 10 < pow(10, (w - 1) as nat)) by {
            vstd::arithmetic::div_mod::lemma_fundamental_div_mod(n as int, 10);
        }
        assert(w >= 2) by {
            if w == 1 {
                assert(pow(10, 1) == 10) by {
                    vstd::arithmetic::power::lemma_pow1(10);
                }
            }
        }
        lemma_fixed_eq_padded(n / 10, (w - 1) as nat);
        assert(fixed_digits(n, w) =~= zero_chars((w - dec_digits(n).len()) as nat) + dec_digits(
            n));
    }
}

/// Law: raising the precision by one only appends one digit: for the same
/// rational value, the rendering with `p` fractional digits is a prefix of
/// the rendering with `p + 1`, so earlier digits never change.
pub proof fn lemma_dec_string_extends(num: int, den: int, p: nat)
    requires
        den > 0,
    ensures
        dec_string(num, den, p).is_prefix_of(dec_string(num, den, p + 1)),
{
    let a = vstd::math::abs(num) as int;
    let bp = pow(10, p);
    let bp1 = pow(10, p + 1);
    vstd::arithmetic::power::lemma_pow_positive(10, p);
    vstd::arithmetic::power::lemma_pow_positive(10, p + 1);
    assert(bp1 == 10 * bp) by {
        vstd::arithmetic::power::lemma_pow_adds(10, 1, p);
        vstd::arithmetic::power::lemma_pow1(10);
    }
    let q1 = (a * bp1) / den;
    let q = (a * bp) / den;
    assert(a * bp1 == 10 * (a * bp)) by (nonlinear_arith)
        requires
            bp1 == 10 * bp,
    ;
    vstd::arithmetic::mul::lemma_mul_nonnegative(a, bp1);
    vstd::arithmetic::mul::lemma_mul_nonnegative(a, bp);
    vstd::arithmetic::div_mod::lemma_div_pos_is_pos(a * bp1, den);
    vstd::arithmetic::div_mod::lemma_div_pos_is_pos(a * bp, den);
    // q1 / 10 == (a*bp1) / (den*10) == (10*(a*bp)) / (10*den) == (a*bp) / den == q
    vstd::arithmetic::div_mod::lemma_div_denominator(a * bp1, den, 10);
    vstd::arithmetic::div_mod::lemma_div_multiples_vanish_quotient(10, a * bp, den);
    assert(q == q1 / 10);
    // integer parts agree: q / bp == q1 / (10*bp) == q1 / bp1
    vstd::arithmetic::div_mod::lemma_div_denominator(q1, 10, bp);
    assert(q / bp == q1 / bp1);
    let ip = q / bp;
    // fractional parts: fp1 == 10*fp + r with r the appended digit
    let fp = q % bp;
    let fp1 = q1 % bp1;
    let r = q1 % 10;
    vstd::arithmetic::div_mod::lemma_breakdown(q1, 10, bp);
    vstd::arithmetic::div_mod::lemma_mod_bound(q1, 10);
    vstd::arithmetic::div_mod::lemma_mod_bound(q, bp);
    vstd::arithmetic::div_mod::lemma_mod_bound(q1, bp1);
    assert(fp1 == 10 * fp + r);
    vstd::arithmetic::div_mod::lemma_fundamental_div_mod_converse(fp1, 10, fp, r);
    assert(fp1 / 10 == fp);
    assert(fp1 % 10 == r);
    if p == 0 {
        assert(pow(10, 0) == 1) by {
            vstd::arithmetic::power::lemma_pow0(10);
        }
        assert(dec_string(num, den, p).is_prefix_of(dec_string(num, den, p + 1))) by {
            assert(dec_string(num, den, p) =~= dec_string(num, den, p + 1).subrange(0,
                dec_string(num, den, p).len() as int));
        }
    } else {
        lemma_fixed_eq_padded(fp as nat, p);
        lemma_fixed_eq_padded(fp1 as nat, p + 1);
        assert(fixed_digits(fp1 as nat, p + 1) == fixed_digits(fp as nat, p).push(digit_char(
            r as nat)));
        assert(dec_string(num, den, p).is_prefix_of(dec_string(num, den, p + 1))) by {
            assert(dec_string(num, den, p) =~= dec_string(num, den, p + 1).subrange(0,
                dec_string(num, den, p).len() as int));
        }
    }
}

/// Law: truncation is idempotent. A nonnegative value's `p`-digit rendering
/// denotes exactly `floor(v * 10^p) / 10^p`; rendering that truncated value
/// at any precision `p2 <= p` gives the same string as rendering the
/// value itself at `p2` directly, so no leading digit ever changes.
pub proof fn lemma_retruncate(num: int, den: int, p: nat, p2: nat)
    requires
        den > 0,
        num >= 0,
        p2 <= p,
    ensures
        dec_string((vstd::math::abs(num) * pow(10, p)) / den, pow(10, p), p2) == dec_string(num,
            den, p2),
{
    let a = vstd::math::abs(num) as int;
    let bp = pow(10, p);
    let bp2 = pow(10, p2);
    let c = pow(10, (p - p2) as nat);
    vstd::arithmetic::power::lemma_pow_positive(10, p);
    vstd::arithmetic::power::lemma_pow_positive(10, p2);
    vstd::arithmetic::power::lemma_pow_positive(10, (p - p2) as nat);
    assert(bp == bp2 * c) by {
        vstd::arithmetic::power::lemma_pow_adds(10, p2, (p - p2) as nat);
    }
    let q = (a * bp) / den;
    vstd::arithmetic::mul::lemma_mul_nonnegative(a, bp);
    vstd::arithmetic::div_mod::lemma_div_pos_is_pos(a * bp, den);
    assert(vstd::math::abs(q) == q);
    // (q * bp2) / bp == q / c
    vstd::arithmetic::mul::lemma_mul_is_commutative(q, bp2);
    vstd::arithmetic::div_mod::lemma_div_multiples_vanish_quotient(bp2, q, c);
    assert((q * bp2) / bp == q / c);
    // q / c == (a*bp) / (den*c)
    vstd::arithmetic::div_mod::lemma_div_denominator(a * bp, den, c);
    // a*bp == c * (a*bp2)
    assert(a * bp == c * (a * bp2)) by (nonlinear_arith)
        requires
            bp == bp2 * c,
    ;
    // (c*(a*bp2)) / (den*c) == (a*bp2) / den
    vstd::arithmetic::mul::lemma_mul_nonnegative(a, bp2);
    vstd::arithmetic::mul::lemma_mul_is_commutative(den, c);
    vstd::arithmetic::div_mod::lemma_div_multiples_vanish_quotient(c, a * bp2, den);
    assert((q * bp2) / bp == (a * bp2) / den);
    assert(dec_string(q, bp, p2) =~= dec_string(num, den, p2));
}

} // verus!
