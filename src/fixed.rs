use vstd::prelude::*;

verus! {

/// Number of fixed-point units in one whole unit: values carry six decimals.
pub const SCALE: i128 = 1_000_000;

/// `SCALE * SCALE`, the divisor of a product of three fixed-point values
/// down to one.
pub const SCALE_SQ: i128 = 1_000_000_000_000;

/// Whether a mathematical integer fits an `i128`.
pub open spec fn fits(x: int) -> bool {
    i128::MIN <= x <= i128::MAX
}

/// Division rounding toward zero, by a positive divisor.
pub open spec fn tdiv(x: int, d: int) -> int {
    if x >= 0 {
        x / d
    } else {
        -((-x) / d)
    }
}

proof fn lemma_tdiv_bounded(x: int, d: int)
    requires
        d >= 1,
    ensures
        x >= 0 ==> 0 <= tdiv(x, d) <= x,
        x < 0 ==> x <= tdiv(x, d) <= 0,
{
    if x >= 0 {
        assert(x / d <= x) by (nonlinear_arith)
            requires x >= 0, d >= 1;
        assert(x / d >= 0) by (nonlinear_arith)
            requires x >= 0, d >= 1;
    } else {
        assert((-x) / d <= -x) by (nonlinear_arith)
            requires -x > 0, d >= 1;
        assert((-x) / d >= 0) by (nonlinear_arith)
            requires -x > 0, d >= 1;
    }
}

/// A quotient rounded toward zero by a positive divisor fits wherever the
/// dividend does.
pub proof fn lemma_tdiv_fits(x: int, d: int)
    requires
        d >= 1,
        fits(x),
    ensures
        fits(tdiv(x, d)),
        fits(-tdiv(x, d)) || d == 1,
{
    lemma_tdiv_bounded(x, d);
    if d >= 2 && x < 0 {
        assert((-x) / d <= -x / 2) by (nonlinear_arith)
            requires -x > 0, d >= 2;
    }
}

/// Division of `x` by the positive `d`, rounding toward zero.
pub fn div_toward_zero(x: i128, d: i128) -> (r: i128)
    requires
        d >= 1,
    ensures
        r == tdiv(x as int, d as int),
{
    proof {
        lemma_tdiv_bounded(x as int, d as int);
    }
    match x.checked_div(d) {
        Some(q) => q,
        None => 0,
    }
}

/// Product of two fixed-point values that carry `SCALE`, rescaled to one
/// `SCALE` (rounding toward zero); `None` when the product leaves `i128`.
pub fn mul_fixed(a: i128, b: i128) -> (r: Option<i128>)
    ensures
        r == (if fits(a * b) {
            Some(tdiv(a * b, SCALE as int) as i128)
        } else {
            None::<i128>
        }),
{
    match a.checked_mul(b) {
        Some(p) => Some(div_toward_zero(p, SCALE)),
        None => None,
    }
}

/// Sum that reports leaving `i128` as `None`.
pub fn add_checked(a: i128, b: i128) -> (r: Option<i128>)
    ensures
        r == (if fits(a + b) {
            Some((a + b) as i128)
        } else {
            None::<i128>
        }),
{
    a.checked_add(b)
}

} // verus!
