//! The alternating power series for atan(1/k), summed in exact rational
//! arithmetic until the next term's magnitude falls to or below 1/10^p.

use vstd::prelude::*;
use vstd::arithmetic::power::pow;
use vstd::math::abs;
use crate::rational::{Rational, rat_lt};
use crate::bigint::{big_int_value, big_from_i64, big_add, big_clone, big_pow};

verus! {

/// The largest precision the series walker accepts: its term counter stays
/// below 2 * precision + 2, which this bound keeps inside a `u64`.
pub const MAX_SERIES_PRECISION: u64 = 0x3fff_ffff_ffff_ffff;

/// The sign of term `i` of the series: the terms alternate, starting
/// positive.
pub open spec fn term_sign(i: nat) -> int {
    if i % 2 == 0 {
        1
    } else {
        -1
    }
}

/// The denominator of term `i` of atan(1/k): term `i` is
/// `term_sign(i) / ((2i+1) * k^(2i+1))`.
pub open spec fn term_den(k: int, i: nat) -> int {
    (2 * i + 1) * pow(k, 2 * i + 1)
}

/// The numerator of the sum of the first `i` terms, over `psum_den(k, i)`,
/// accumulated exactly as repeated exact addition over the product
/// denominator builds it (no reduction).
pub open spec fn psum_num(k: int, i: nat) -> int
    decreases i,
{
    if i == 0 {
        0
    } else {
        psum_num(k, (i - 1) as nat) * term_den(k, (i - 1) as nat) + term_sign((i - 1) as nat)
            * psum_den(k, (i - 1) as nat)
    }
}

/// The denominator of the sum of the first `i` terms: the product of the
/// term denominators.
pub open spec fn psum_den(k: int, i: nat) -> int
    decreases i,
{
    if i == 0 {
        1
    } else {
        psum_den(k, (i - 1) as nat) * term_den(k, (i - 1) as nat)
    }
}

/// The loop keeps summing while term `i` is still larger in magnitude than
/// the threshold 1/10^p.
pub open spec fn series_continues(k: int, p: nat, i: nat) -> bool {
    term_den(k, i) < pow(10, p)
}

/// The evaluation stopped after exactly `m` terms: every earlier term was
/// above the threshold and term `m` is not.
pub open spec fn series_stops_at(k: int, p: nat, m: nat) -> bool {
    &&& !series_continues(k, p, m)
    &&& forall|j: nat| j < m ==> series_continues(k, p, j)
}

/// Raising a larger base to the same power gives at least as large a result.
pub proof fn lemma_pow_base_le(b1: int, b2: int, e: nat)
    requires
        1 <= b1 <= b2,
    ensures
        pow(b1, e) <= pow(b2, e),
    decreases e,
{
    reveal(vstd::arithmetic::power::pow);
    if e > 0 {
        lemma_pow_base_le(b1, b2, (e - 1) as nat);
        vstd::arithmetic::power::lemma_pow_positive(b1, (e - 1) as nat);
        vstd::arithmetic::power::lemma_pow_positive(b2, (e - 1) as nat);
        assert(b1 * pow(b1, (e - 1) as nat) <= b2 * pow(b1, (e - 1) as nat)) by {
            vstd::arithmetic::mul::lemma_mul_inequality(b1, b2, pow(b1, (e - 1) as nat));
        }
        assert(b2 * pow(b1, (e - 1) as nat) <= b2 * pow(b2, (e - 1) as nat)) by {
            vstd::arithmetic::mul::lemma_mul_left_inequality(b2, pow(b1, (e - 1) as nat),
                pow(b2, (e - 1) as nat));
        }
    }
}

/// Term denominators are positive for any base `k >= 1`.
pub proof fn lemma_term_den_positive(k: int, i: nat)
    requires
        k >= 1,
    ensures
        term_den(k, i) > 0,
{
    vstd::arithmetic::power::lemma_pow_positive(k, 2 * i + 1);
    vstd::arithmetic::mul::lemma_mul_strictly_positive((2 * i + 1) as int, pow(k, 2 * i + 1));
}

/// For any base `k >= 2` the series reaches the threshold within `2p + 1`
/// terms: term `2p + 1` is already at or below `1/10^p`.
pub proof fn lemma_series_stops(k: int, p: nat)
    requires
        k >= 2,
    ensures
        !series_continues(k, p, 2 * p + 1),
{
    let e: nat = 2 * (2 * p + 1) + 1;
    assert(e == 4 * p + 3);
    vstd::arithmetic::power::lemma_pow_positive(k, e);
    // (4p+3) * k^e >= k^e
    assert(1 * pow(k, e) <= (4 * p + 3) * pow(k, e)) by {
        vstd::arithmetic::mul::lemma_mul_inequality(1, (4 * p + 3) as int, pow(k, e));
    }
    // k^e >= 2^e
    lemma_pow_base_le(2, k, e);
    // 2^e == 8 * 16^p
    assert(pow(2, e) == pow(2, 4 * p) * pow(2, 3)) by {
        vstd::arithmetic::power::lemma_pow_adds(2, 4 * p, 3);
    }
    assert(pow(2, 3) == 8) by {
        vstd::arithmetic::power::lemma_pow1(2);
        vstd::arithmetic::power::lemma_pow_adds(2, 1, 1);
        vstd::arithmetic::power::lemma_pow_adds(2, 2, 1);
    }
    assert(pow(2, 4 * p) == pow(16, p)) by {
        vstd::arithmetic::power::lemma_pow_multiplies(2, 4, p);
        vstd::arithmetic::power::lemma_pow1(2);
        vstd::arithmetic::power::lemma_pow_adds(2, 1, 1);
        vstd::arithmetic::power::lemma_pow_adds(2, 2, 1);
        vstd::arithmetic::power::lemma_pow_adds(2, 3, 1);
    }
    // 16^p >= 10^p, so 8 * 16^p >= 8 * 10^p > 10^p
    lemma_pow_base_le(10, 16, p);
    vstd::arithmetic::power::lemma_pow_positive(10, p);
    assert(8 * pow(16, p) >= 8 * pow(10, p)) by {
        vstd::arithmetic::mul::lemma_mul_left_inequality(8, pow(10, p), pow(16, p));
    }
}

/// The partial-sum denominators stay positive.
pub proof fn lemma_psum_den_positive(k: int, i: nat)
    requires
        k >= 1,
    ensures
        psum_den(k, i) > 0,
    decreases i,
{
    if i > 0 {
        lemma_psum_den_positive(k, (i - 1) as nat);
        lemma_term_den_positive(k, (i - 1) as nat);
        vstd::arithmetic::mul::lemma_mul_strictly_positive(psum_den(k, (i - 1) as nat),
            term_den(k, (i - 1) as nat));
    }
}

/// Term denominators strictly grow with the index, so term magnitudes
/// strictly shrink.
pub proof fn lemma_term_den_increases(k: int, i: nat)
    requires
        k >= 1,
    ensures
        term_den(k, i) < term_den(k, i + 1),
{
    let e1 = 2 * i + 1;
    let e2 = 2 * (i + 1) + 1;
    vstd::arithmetic::power::lemma_pow_positive(k, e1);
    assert(pow(k, e1) <= pow(k, e2)) by {
        vstd::arithmetic::power::lemma_pow_increases(k as nat, e1, e2);
    }
    assert((2 * i + 1) * pow(k, e1) < (2 * i + 3) * pow(k, e1)) by {
        vstd::arithmetic::mul::lemma_mul_strict_inequality((2 * i + 1) as int, (2 * i + 3) as int,
            pow(k, e1));
    }
    assert((2 * i + 3) * pow(k, e1) <= (2 * i + 3) * pow(k, e2)) by {
        vstd::arithmetic::mul::lemma_mul_left_inequality((2 * i + 3) as int, pow(k, e1),
            pow(k, e2));
    }
}

/// One step moves the partial sum by exactly term `i`: the cross-multiplied
/// difference is the term's sign times the square of the old denominator.
proof fn lemma_psum_step(k: int, i: nat)
    ensures
        psum_num(k, i + 1) * psum_den(k, i) - psum_num(k, i) * psum_den(k, i + 1) == term_sign(i)
            * (psum_den(k, i) * psum_den(k, i)),
{
    let pn = psum_num(k, i);
    let pd = psum_den(k, i);
    let td = term_den(k, i);
    let s = term_sign(i);
    assert(psum_num(k, i + 1) == pn * td + s * pd);
    assert(psum_den(k, i + 1) == pd * td);
    assert((pn * td + s * pd) * pd - pn * (pd * td) == s * (pd * pd)) by (nonlinear_arith);
}

/// Two steps move the partial sum by two opposite-sign terms whose combined
/// sign is the first one's, because the second term is strictly smaller.
proof fn lemma_psum_two_step(k: int, i: nat)
    ensures
        psum_num(k, i + 2) * psum_den(k, i) - psum_num(k, i) * psum_den(k, i + 2) == term_sign(i)
            * ((psum_den(k, i) * psum_den(k, i)) * (term_den(k, i + 1) - term_den(k, i))),
{
    let pn = psum_num(k, i);
    let pd = psum_den(k, i);
    let td = term_den(k, i);
    let td1 = term_den(k, i + 1);
    let s = term_sign(i);
    assert(term_sign(i + 1) == -s) by {
        assert((i + 1) % 2 != i % 2);
    }
    assert(psum_num(k, i + 1) == pn * td + s * pd);
    assert(psum_den(k, i + 1) == pd * td);
    let pn1 = pn * td + s * pd;
    let pd1 = pd * td;
    assert(psum_num(k, i + 2) == pn1 * td1 + (-s) * pd1);
    assert(psum_den(k, i + 2) == pd1 * td1);
    lemma_psum_step(k, i);
    assert(pn1 * pd - pn * pd1 == s * (pd * pd));
    assert((pn1 * td1 + (-s) * pd1) * pd - pn * (pd1 * td1) == td1 * (pn1 * pd - pn * pd1) - s * (
    pd1 * pd)) by (nonlinear_arith);
    assert(pd1 * pd == td * (pd * pd)) by (nonlinear_arith)
        requires
            pd1 == pd * td,
    ;
    assert(td1 * (s * (pd * pd)) - s * (td * (pd * pd)) == s * ((pd * pd) * (td1 - td)))
        by (nonlinear_arith);
}

/// Ordering of fractions by cross-multiplication is transitive (first link
/// weak, second strict).
proof fn lemma_rat_le_lt_trans(n1: int, d1: int, n2: int, d2: int, n3: int, d3: int)
    requires
        d1 > 0,
        d2 > 0,
        d3 > 0,
        n1 * d2 <= n2 * d1,
        n2 * d3 < n3 * d2,
    ensures
        n1 * d3 < n3 * d1,
{
    assert(n1 * d3 < n3 * d1) by (nonlinear_arith)
        requires
            d1 > 0,
            d2 > 0,
            d3 > 0,
            n1 * d2 <= n2 * d1,
            n2 * d3 < n3 * d2,
    ;
}

/// Ordering of fractions by cross-multiplication is transitive (first link
/// strict, second weak).
proof fn lemma_rat_lt_le_trans(n1: int, d1: int, n2: int, d2: int, n3: int, d3: int)
    requires
        d1 > 0,
        d2 > 0,
        d3 > 0,
        n1 * d2 < n2 * d1,
        n2 * d3 <= n3 * d2,
    ensures
        n1 * d3 < n3 * d1,
{
    assert(n1 * d3 < n3 * d1) by (nonlinear_arith)
        requires
            d1 > 0,
            d2 > 0,
            d3 > 0,
            n1 * d2 < n2 * d1,
            n2 * d3 <= n3 * d2,
    ;
}

/// Law: the partial sums cut after an even number of terms strictly
/// increase: each pair of further terms raises the value.
pub proof fn lemma_even_partials_increase(k: int, m: nat)
    requires
        k >= 2,
    ensures
        rat_lt(psum_num(k, 2 * m), psum_den(k, 2 * m), psum_num(k, 2 * m + 2),
            psum_den(k, 2 * m + 2)),
{
    lemma_psum_two_step(k, 2 * m);
    lemma_psum_den_positive(k, 2 * m);
    lemma_psum_den_positive(k, 2 * m + 2);
    lemma_term_den_increases(k, 2 * m);
    assert(term_sign(2 * m) == 1);
    vstd::arithmetic::mul::lemma_mul_strictly_positive(psum_den(k, 2 * m), psum_den(k, 2 * m));
    vstd::arithmetic::mul::lemma_mul_strictly_positive(psum_den(k, 2 * m) * psum_den(k, 2 * m),
        term_den(k, 2 * m + 1) - term_den(k, 2 * m));
}

/// Law: the partial sums cut after an odd number of terms strictly
/// decrease.
pub proof fn lemma_odd_partials_decrease(k: int, m: nat)
    requires
        k >= 2,
    ensures
        rat_lt(psum_num(k, 2 * m + 3), psum_den(k, 2 * m + 3), psum_num(k, 2 * m + 1),
            psum_den(k, 2 * m + 1)),
{
    lemma_psum_two_step(k, 2 * m + 1);
    lemma_psum_den_positive(k, 2 * m + 1);
    lemma_psum_den_positive(k, 2 * m + 3);
    lemma_term_den_increases(k, 2 * m + 1);
    assert(term_sign(2 * m + 1) == -1);
    vstd::arithmetic::mul::lemma_mul_strictly_positive(psum_den(k, 2 * m + 1),
        psum_den(k, 2 * m + 1));
    vstd::arithmetic::mul::lemma_mul_strictly_positive(psum_den(k, 2 * m + 1) * psum_den(k,
        2 * m + 1), term_den(k, 2 * m + 2) - term_den(k, 2 * m + 1));
}

/// An even cut lies strictly below the odd cut right after it: the next term
/// is positive.
pub proof fn lemma_even_below_next_odd(k: int, m: nat)
    requires
        k >= 2,
    ensures
        rat_lt(psum_num(k, 2 * m), psum_den(k, 2 * m), psum_num(k, 2 * m + 1),
            psum_den(k, 2 * m + 1)),
{
    lemma_psum_step(k, 2 * m);
    lemma_psum_den_positive(k, 2 * m);
    assert(term_sign(2 * m) == 1);
    vstd::arithmetic::mul::lemma_mul_strictly_positive(psum_den(k, 2 * m), psum_den(k, 2 * m));
}

/// Chain of even-cut increases, weakly, from cut `2a` up to cut `2b`.
proof fn lemma_even_chain(k: int, a: nat, b: nat)
    requires
        k >= 2,
        a <= b,
    ensures
        psum_num(k, 2 * a) * psum_den(k, 2 * b) <= psum_num(k, 2 * b) * psum_den(k, 2 * a),
    decreases b - a,
{
    if a < b {
        lemma_even_chain(k, a, (b - 1) as nat);
        lemma_even_partials_increase(k, (b - 1) as nat);
        lemma_psum_den_positive(k, 2 * a);
        lemma_psum_den_positive(k, (2 * (b - 1)) as nat);
        lemma_psum_den_positive(k, 2 * b);
        lemma_rat_le_lt_trans(psum_num(k, 2 * a), psum_den(k, 2 * a),
            psum_num(k, (2 * (b - 1)) as nat), psum_den(k, (2 * (b - 1)) as nat),
            psum_num(k, 2 * b), psum_den(k, 2 * b));
    }
}

/// Chain of odd-cut decreases, weakly, from cut `2b+1` down to cut `2a+1`.
proof fn lemma_odd_chain(k: int, a: nat, b: nat)
    requires
        k >= 2,
        a <= b,
    ensures
        psum_num(k, 2 * b + 1) * psum_den(k, 2 * a + 1) <= psum_num(k, 2 * a + 1) * psum_den(k,
            2 * b + 1),
    decreases b - a,
{
    if a < b {
        lemma_odd_chain(k, a, (b - 1) as nat);
        lemma_odd_partials_decrease(k, (b - 1) as nat);
        lemma_psum_den_positive(k, 2 * a + 1);
        lemma_psum_den_positive(k, (2 * (b - 1) + 1) as nat);
        lemma_psum_den_positive(k, 2 * b + 1);
        lemma_rat_lt_le_trans(psum_num(k, 2 * b + 1), psum_den(k, 2 * b + 1),
            psum_num(k, (2 * (b - 1) + 1) as nat), psum_den(k, (2 * (b - 1) + 1) as nat),
            psum_num(k, 2 * a + 1), psum_den(k, 2 * a + 1));
    }
}

/// Law: alternating-series bracketing. Every partial sum cut after an even
/// number of terms lies strictly below every partial sum cut after an odd
/// number of terms; the true atan(1/k), and with it any later cut such as
/// the one the evaluation returns, is squeezed strictly between them.
pub proof fn lemma_alternating_bracket(k: int, a: nat, b: nat)
    requires
        k >= 2,
    ensures
        rat_lt(psum_num(k, 2 * a), psum_den(k, 2 * a), psum_num(k, 2 * b + 1),
            psum_den(k, 2 * b + 1)),
{
    lemma_psum_den_positive(k, 2 * a);
    lemma_psum_den_positive(k, 2 * b);
    lemma_psum_den_positive(k, 2 * a + 1);
    lemma_psum_den_positive(k, 2 * b + 1);
    if a <= b {
        lemma_even_chain(k, a, b);
        lemma_even_below_next_odd(k, b);
        lemma_rat_le_lt_trans(psum_num(k, 2 * a), psum_den(k, 2 * a), psum_num(k, 2 * b),
            psum_den(k, 2 * b), psum_num(k, 2 * b + 1), psum_den(k, 2 * b + 1));
    } else {
        lemma_even_below_next_odd(k, a);
        lemma_odd_chain(k, b, a);
        lemma_rat_lt_le_trans(psum_num(k, 2 * a), psum_den(k, 2 * a), psum_num(k, 2 * a + 1),
            psum_den(k, 2 * a + 1), psum_num(k, 2 * b + 1), psum_den(k, 2 * b + 1));
    }
}

/// Law: the value the evaluation returns — the partial sum at its stop
/// index `m` — lies strictly between the earlier cuts: strictly above every
/// partial sum after an even number of terms below `m`, and strictly below
/// every partial sum after an odd number of terms below `m`.
pub proof fn lemma_result_bracketed(k: int, m: nat, a: nat, b: nat)
    requires
        k >= 2,
        2 * a < m,
        2 * b + 1 < m,
    ensures
        rat_lt(psum_num(k, 2 * a), psum_den(k, 2 * a), psum_num(k, m), psum_den(k, m)),
        rat_lt(psum_num(k, m), psum_den(k, m), psum_num(k, 2 * b + 1), psum_den(k, 2 * b + 1)),
{
    let c = m / 2;
    lemma_psum_den_positive(k, 2 * a);
    lemma_psum_den_positive(k, 2 * b + 1);
    lemma_psum_den_positive(k, m);
    if m % 2 == 0 {
        // an even cut: above the earlier evens by the increasing chain,
        // below every odd cut by the bracket
        assert(m == 2 * c);
        assert(a < c);
        lemma_even_chain(k, a, (c - 1) as nat);
        lemma_even_partials_increase(k, (c - 1) as nat);
        lemma_psum_den_positive(k, (2 * (c - 1)) as nat);
        lemma_rat_le_lt_trans(psum_num(k, 2 * a), psum_den(k, 2 * a),
            psum_num(k, (2 * (c - 1)) as nat), psum_den(k, (2 * (c - 1)) as nat),
            psum_num(k, m), psum_den(k, m));
        lemma_alternating_bracket(k, c, b);
    } else {
        // an odd cut: above every even cut by the bracket, below the earlier
        // odds by the decreasing chain
        assert(m == 2 * c + 1);
        assert(b < c);
        lemma_alternating_bracket(k, a, c);
        lemma_odd_partials_decrease(k, (c - 1) as nat);
        lemma_odd_chain(k, b, (c - 1) as nat);
        lemma_psum_den_positive(k, (2 * (c - 1) + 1) as nat);
        lemma_rat_lt_le_trans(psum_num(k, m), psum_den(k, m),
            psum_num(k, (2 * (c - 1) + 1) as nat), psum_den(k, (2 * (c - 1) + 1) as nat),
            psum_num(k, 2 * b + 1), psum_den(k, 2 * b + 1));
    }
}

/// Evaluates atan(1/k) by summing the alternating series
/// `sum of term_sign(i) / ((2i+1) * k^(2i+1))` in exact rational arithmetic,
/// stopping as soon as the next term's magnitude is at or below `1/10^p`.
/// Returns the exact partial sum together with the number of terms summed,
/// which never exceeds `2 * precision + 1`.
pub fn arctan_series(k: u64, precision: u64) -> (res: (Rational, u64))
    requires
        2 <= k <= 0x7fff_ffff_ffff_ffff,
        precision <= MAX_SERIES_PRECISION,
    ensures
        res.0.wf(),
        res.0.num_int() == psum_num(k as int, res.1 as nat),
        res.0.den_int() == psum_den(k as int, res.1 as nat),
        series_stops_at(k as int, precision as nat, res.1 as nat),
        res.1 <= 2 * precision + 1,
{
    let ghost ki: int = k as int;
    let ghost p: nat = precision as nat;
    proof {
        lemma_series_stops(ki, p);
    }
    let k_big = big_from_i64(k as i64);
    let one = big_from_i64(1);
    let x = Rational::from_parts(big_from_i64(1), k_big);
    let x_square = x.mul(&x);
    proof {
        vstd::arithmetic::power::lemma_square_is_pow2(ki);
    }
    let target = Rational::from_parts(one, {
        proof {
            vstd::arithmetic::power::lemma_pow_positive(10, p);
        }
        big_pow(&big_from_i64(10), precision)
    });
    let mut sum = Rational::from_integer(0);
    let mut current = x;
    let mut x_pow = current.duplicate();
    let mut n_big = big_from_i64(1);
    let mut sign_pos: bool = true;
    let mut count: u64 = 0;
    proof {
        vstd::arithmetic::power::lemma_pow1(ki);
    }
    while current.abs_greater_than(&target)
        invariant
            2 <= ki <= 0x7fff_ffff_ffff_ffff,
            p <= MAX_SERIES_PRECISION,
            x_square.wf(),
            x_square.num_int() == 1,
            x_square.den_int() == pow(ki, 2),
            target.wf(),
            target.num_int() == 1,
            target.den_int() == pow(10, p),
            sum.wf(),
            sum.num_int() == psum_num(ki, count as nat),
            sum.den_int() == psum_den(ki, count as nat),
            current.wf(),
            current.num_int() == term_sign(count as nat),
            current.den_int() == term_den(ki, count as nat),
            x_pow.wf(),
            x_pow.num_int() == 1,
            x_pow.den_int() == pow(ki, 2 * (count as nat) + 1),
            big_int_value(n_big) == 2 * (count as nat) + 1,
            sign_pos <==> term_sign(count as nat) == 1,
            forall|j: nat| j < count as nat ==> series_continues(ki, p, j),
            count <= 2 * p + 1,
            !series_continues(ki, p, 2 * p + 1),
        decreases 2 * p + 1 - count,
    {
        let ghost i: nat = count as nat;
        proof {
            // the loop guard says |term i| > 1/10^p, i.e. the series continues
            assert(abs(term_sign(i)) == 1);
            assert(abs(current.num_int()) == 1);
            assert(abs(target.num_int()) == 1);
            assert(abs(current.num_int()) * target.den_int() == 1 * target.den_int());
            assert(abs(target.num_int()) * current.den_int() == 1 * current.den_int());
            assert(series_continues(ki, p, i));
            assert(i < 2 * p + 1);
        }
        sum = sum.add(&current);
        let two = big_from_i64(2);
        n_big = big_add(&n_big, &two);
        sign_pos = !sign_pos;
        x_pow = x_pow.mul(&x_square);
        proof {
            vstd::arithmetic::power::lemma_pow_adds(ki, 2 * i + 1, 2);
            assert(term_sign(i + 1) == -term_sign(i)) by {
                assert((i + 1) % 2 != i % 2);
            }
            lemma_term_den_positive(ki, i + 1);
            vstd::arithmetic::power::lemma_pow_positive(ki, 2 * (i + 1) + 1);
        }
        let sign_big = big_from_i64(if sign_pos { 1 } else { -1 });
        let step = Rational::from_parts(sign_big, big_clone(&n_big));
        current = x_pow.mul(&step);
        proof {
            assert(x_pow.den_int() == pow(ki, 2 * (i + 1) + 1));
            assert(step.den_int() == 2 * (i + 1) + 1);
            assert(current.den_int() == pow(ki, 2 * (i + 1) + 1) * (2 * (i + 1) + 1));
            assert(term_den(ki, i + 1) == (2 * (i + 1) + 1) * pow(ki, 2 * (i + 1) + 1));
            assert(current.den_int() == term_den(ki, i + 1)) by {
                vstd::arithmetic::mul::lemma_mul_is_commutative(pow(ki, 2 * (i + 1) + 1),
                    (2 * (i + 1) + 1) as int);
            }
            assert(current.num_int() == term_sign(i + 1));
        }
        count = count + 1;
        proof {
            assert(count as nat == i + 1);
        }
    }
    proof {
        // the guard failed: |term count| <= 1/10^p, so the series stops here
        assert(abs(term_sign(count as nat)) == 1);
        assert(abs(current.num_int()) == 1);
        assert(abs(target.num_int()) == 1);
        assert(abs(current.num_int()) * target.den_int() == 1 * target.den_int());
        assert(abs(target.num_int()) * current.den_int() == 1 * current.den_int());
        assert(!series_continues(ki, p, count as nat));
    }
    (sum, count)
}

} // verus!
