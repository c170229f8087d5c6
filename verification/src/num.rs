//! Fixed-point arithmetic helpers: truncating division as Rust's integer
//! division performs it, with the bound and exactness lemmas the pipeline's
//! contracts rest on.

use vstd::arithmetic::div_mod::{
    lemma_div_by_multiple, lemma_div_is_ordered, lemma_div_pos_is_pos,
};
use vstd::prelude::*;

verus! {

/// Quotient of `a` by positive `d`, rounded toward zero: the value Rust's
/// `/` computes on signed integers. All fixed-point contracts use it.
pub open spec fn div_trunc(a: int, d: int) -> int
    recommends
        d > 0,
{
    if a >= 0 {
        a / d
    } else {
        -((-a) / d)
    }
}

/// Truncating division never enlarges a bound: if `|a| <= b * d` then
/// `|div_trunc(a, d)| <= b`.
pub proof fn lemma_div_trunc_bounded(a: int, d: int, b: int)
    requires
        d > 0,
        b >= 0,
        -(b * d) <= a <= b * d,
    ensures
        -b <= div_trunc(a, d) <= b,
{
    if a >= 0 {
        lemma_div_is_ordered(a, b * d, d);
        lemma_div_by_multiple(b, d);
        lemma_div_pos_is_pos(a, d);
    } else {
        lemma_div_is_ordered(-a, b * d, d);
        lemma_div_by_multiple(b, d);
        lemma_div_pos_is_pos(-a, d);
    }
}

/// Dividing an exact multiple is exact: `div_trunc(x * d, d) == x`.
pub proof fn lemma_div_trunc_exact(x: int, d: int)
    requires
        d > 0,
    ensures
        div_trunc(x * d, d) == x,
{
    if x >= 0 {
        assert(x * d >= 0) by (nonlinear_arith)
            requires
                x >= 0,
                d > 0,
        ;
        lemma_div_by_multiple(x, d);
    } else {
        assert(x * d < 0) by (nonlinear_arith)
            requires
                x < 0,
                d > 0,
        ;
        assert(-(x * d) == (-x) * d) by (nonlinear_arith);
        lemma_div_by_multiple(-x, d);
    }
}

/// Truncating division of `a` by positive `d`, as an executable function on
/// the wide accumulator type.
pub fn div_q(a: i128, d: i128) -> (r: i128)
    requires
        d > 0,
        a > i128::MIN,
    ensures
        r == div_trunc(a as int, d as int),
{
    if a >= 0 {
        a / d
    } else {
        -((-a) / d)
    }
}

/// A product of values bounded by `x` and `y` is bounded by `x * y`.
pub proof fn lemma_mul_bounded(a: int, b: int, x: int, y: int)
    requires
        -x <= a <= x,
        -y <= b <= y,
        0 <= x,
        0 <= y,
    ensures
        -(x * y) <= a * b <= x * y,
{
    assert(-(x * y) <= a * b <= x * y) by (nonlinear_arith)
        requires
            -x <= a <= x,
            -y <= b <= y,
            0 <= x,
            0 <= y,
    ;
}

} // verus!
