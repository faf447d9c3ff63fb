//! Fixed-point quantities.
//!
//! Lengths, coordinates and coefficients are whole numbers of millionths:
//! the `i64` value `1_000_000` stands for one unit.  Products and halves
//! that do not come out whole are rounded toward zero.

use vstd::prelude::*;

verus! {

/// The fixed-point representation of one unit.
pub const UNIT: i64 = 1_000_000;

/// The absolute value of `v`.
pub open spec fn magnitude(v: int) -> int {
    if v < 0 {
        -v
    } else {
        v
    }
}

/// The quotient of `n` by a positive `d`, rounded toward zero.
pub open spec fn quot(n: int, d: int) -> int {
    if n >= 0 {
        n / d
    } else {
        -((-n) / d)
    }
}

/// Half of `v`, rounded toward zero.
pub open spec fn half(v: int) -> int {
    quot(v, 2)
}

/// The product of the quantity `v` and the coefficient `factor`, both in
/// millionths, rounded toward zero to a whole number of millionths.
pub open spec fn scaled(v: int, factor: int) -> int {
    quot(v * factor, UNIT as int)
}

/// Whether `v` can be held in an `i64`.
pub open spec fn representable(v: int) -> bool {
    i64::MIN <= v <= i64::MAX
}

/// Rounding toward zero commutes with negation.
pub proof fn lemma_quot_odd(n: int, d: int)
    requires
        d > 0,
    ensures
        quot(-n, d) == -quot(n, d),
{
}

/// The quotient estimates the true ratio from the side of zero, within one.
pub proof fn lemma_quot_bounds(n: int, d: int)
    requires
        d > 0,
    ensures
        n >= 0 ==> quot(n, d) * d <= n < (quot(n, d) + 1) * d,
        n <= 0 ==> (quot(n, d) - 1) * d < n <= quot(n, d) * d,
        magnitude(quot(n, d)) == magnitude(n) / d,
{
    vstd::arithmetic::div_mod::lemma_fundamental_div_mod(magnitude(n), d);
    vstd::arithmetic::div_mod::lemma_mod_bound(magnitude(n), d);
    let q: int = magnitude(n) / d;
    assert(q >= 0) by {
        vstd::arithmetic::div_mod::lemma_div_pos_is_pos(magnitude(n), d);
    }
    assert((q + 1) * d == q * d + d) by (nonlinear_arith);
    assert((-q - 1) * d == -(q * d) - d) by (nonlinear_arith);
    assert((-q) * d == -(q * d)) by (nonlinear_arith);
    assert(d * q == q * d) by (nonlinear_arith);
}

/// Scaling by a coefficient of magnitude at most `limit` units yields at most
/// `limit` times the magnitude scaled.
pub proof fn lemma_scaled_bound(v: int, factor: int, limit: int)
    requires
        0 <= limit,
        magnitude(factor) <= limit * UNIT,
    ensures
        magnitude(scaled(v, factor)) <= magnitude(v) * limit,
        scaled(-v, factor) == -scaled(v, factor),
{
    let n: int = v * factor;
    let m: int = magnitude(v);
    let f: int = magnitude(factor);
    lemma_quot_bounds(n, UNIT as int);
    lemma_quot_odd(n, UNIT as int);
    assert((-v) * factor == -n) by (nonlinear_arith)
        requires
            n == v * factor,
    ;
    assert(magnitude(n) == m * f) by (nonlinear_arith)
        requires
            n == v * factor,
            m == magnitude(v),
            f == magnitude(factor),
    ;
    assert(m * f <= m * (limit * UNIT)) by (nonlinear_arith)
        requires
            0 <= m,
            0 <= f <= limit * UNIT,
    ;
    assert(m * (limit * UNIT) == (m * limit) * UNIT) by (nonlinear_arith);
    assert(m * limit >= 0) by (nonlinear_arith)
        requires
            0 <= m,
            0 <= limit,
    ;
    vstd::arithmetic::div_mod::lemma_div_is_ordered(m * f, (m * limit) * UNIT, UNIT as int);
    vstd::arithmetic::div_mod::lemma_div_by_multiple(m * limit, UNIT as int);
}

/// Halves `v`, rounding toward zero.
pub fn halve(v: i64) -> (h: i64)
    ensures
        h == half(v as int),
{
    v / 2
}

/// Multiplies the quantity `v` by the coefficient `factor`.
pub fn scale(v: i64, factor: i64) -> (p: i64)
    requires
        representable(scaled(v as int, factor as int)),
    ensures
        p == scaled(v as int, factor as int),
{
    let wide: i128 = (v as i128) * (factor as i128);
    let q: i128 = wide / (UNIT as i128);
    q as i64
}

} // verus!
