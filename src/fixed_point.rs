//! Exponential and natural logarithm in D9 fixed point (1.0 == 1_000_000_000),
//! each a truncated Taylor series over 128-bit integers.
use vstd::prelude::*;
use vstd::arithmetic::div_mod::{lemma_div_is_ordered, lemma_div_is_ordered_by_denominator, lemma_fundamental_div_mod};

use crate::constants::{D9, D9_I128, E_D9, EXP_DOMAIN, SERIES_TERMS};
use crate::errors::ErrorCode;

verus! {

/// Whether `v` is representable as an `i128`.
pub open spec fn fits_i128(v: int) -> bool {
    i128::MIN <= v <= i128::MAX
}

/// Quotient of `a` by a positive `d`, rounded toward zero as Rust's `/` rounds.
pub open spec fn div_toward_zero(a: int, d: int) -> int {
    if a >= 0 {
        a / d
    } else {
        -((-a) / d)
    }
}

/// Taylor series of the exponential from step `n` on, given the previous term and
/// the running sum: `term_n = term_{n-1} * x / 1e9 / n`, each division rounded toward
/// zero, stopping once a term rounds to zero or after the last step. `None` when a
/// product or the running sum leaves the `i128` range.
pub open spec fn exp_series(x: int, n: nat, term: int, acc: int) -> Option<int>
    decreases SERIES_TERMS + 1 - n,
{
    if n > SERIES_TERMS {
        Some(acc)
    } else {
        let p = term * x;
        if !fits_i128(p) {
            None
        } else {
            let t = div_toward_zero(div_toward_zero(p, D9 as int), n as int);
            if -1 < t < 1 {
                Some(acc)
            } else if !fits_i128(acc + t) {
                None
            } else {
                exp_series(x, n + 1, t, acc + t)
            }
        }
    }
}

/// `e^(x / 1e9)` in D9: saturated above the domain, zero below it, otherwise the
/// series from `1.0`, with a negative sum read as zero.
pub open spec fn exp_d9(x: int) -> Result<int, ErrorCode> {
    if x > EXP_DOMAIN {
        Ok(u128::MAX as int)
    } else if x < -EXP_DOMAIN {
        Ok(0)
    } else {
        match exp_series(x, 1, D9 as int, D9 as int) {
            Some(v) => Ok(if v < 0 { 0 } else { v }),
            None => Err(ErrorCode::MathOverflow),
        }
    }
}

/// A `Result` of `u128` seen as a `Result` of `int`.
pub open spec fn widen_u128(r: Result<u128, ErrorCode>) -> Result<int, ErrorCode> {
    match r {
        Ok(v) => Ok(v as int),
        Err(e) => Err(e),
    }
}

/// A `Result` of `i128` seen as a `Result` of `int`.
pub open spec fn widen_i128(r: Result<i128, ErrorCode>) -> Result<int, ErrorCode> {
    match r {
        Ok(v) => Ok(v as int),
        Err(e) => Err(e),
    }
}

pub(crate) fn div_toward_zero_i128(a: i128, d: i128) -> (r: i128)
    requires
        d > 0,
    ensures
        r as int == div_toward_zero(a as int, d as int),
{
    if a >= 0 {
        ((a as u128) / (d as u128)) as i128
    } else {
        let m: u128 = ((-(a + 1)) as u128) + 1;
        let q: u128 = m / (d as u128);
        if q == 0 {
            0
        } else {
            -((q - 1) as i128) - 1
        }
    }
}

/// Fixed-point exponential: `e^(x / 1e9)` scaled by `1e9`.
pub fn fp_exp(x: i128) -> (r: Result<u128, ErrorCode>)
    ensures
        widen_u128(r) == exp_d9(x as int),
        x > EXP_DOMAIN ==> r == Ok::<u128, ErrorCode>(u128::MAX),
        x < -EXP_DOMAIN ==> r == Ok::<u128, ErrorCode>(0),
{
    if x > EXP_DOMAIN {
        return Ok(u128::MAX);
    }
    if x < -EXP_DOMAIN {
        return Ok(0);
    }
    let mut result: i128 = D9_I128;
    let mut term: i128 = D9_I128;
    let mut n: u32 = 1;
    while n <= SERIES_TERMS
        invariant_except_break
            1 <= n <= SERIES_TERMS + 1,
            -EXP_DOMAIN <= x <= EXP_DOMAIN,
            exp_series(x as int, n as nat, term as int, result as int) == exp_series(
                x as int,
                1,
                D9 as int,
                D9 as int,
            ),
        ensures
            exp_series(x as int, 1, D9 as int, D9 as int) == Some(result as int),
        decreases SERIES_TERMS + 1 - n,
    {
        let p = match term.checked_mul(x) {
            Some(p) => p,
            None => return Err(ErrorCode::MathOverflow),
        };
        let t = div_toward_zero_i128(div_toward_zero_i128(p, D9_I128), n as i128);
        if -1 < t && t < 1 {
            break;
        }
        result = match result.checked_add(t) {
            Some(v) => v,
            None => return Err(ErrorCode::MathOverflow),
        };
        term = t;
        n = n + 1;
    }
    if result < 0 {
        Ok(0)
    } else {
        Ok(result as u128)
    }
}

/// Alternating series for `ln(1 + y / 1e9)` from step `n` on, given `y^(n-1)` in D9
/// (each power rounded down) and the running sum: the `n`-th term is `y^n / n`, with
/// sign `(-1)^(n+1)`, and the series stops once a term rounds to zero or after the
/// last step. It is applied to `0 < y <= 1e9`, where every power is non-negative.
pub open spec fn ln_series(y: int, n: nat, y_power: int, acc: int) -> int
    decreases SERIES_TERMS + 1 - n,
{
    if n > SERIES_TERMS {
        acc
    } else {
        let t = if n % 2 == 1 {
            y_power / (n as int)
        } else {
            -(y_power / (n as int))
        };
        if -1 < t < 1 {
            acc
        } else {
            ln_series(y, n + 1, y_power * y / (D9 as int), acc + t)
        }
    }
}

/// A measure that each range-reduction step of the logarithm strictly lowers.
pub open spec fn ln_reduction_measure(x: int) -> int {
    if x < D9 {
        2 * ((D9 * D9) / x) + 1
    } else {
        2 * x
    }
}

/// `ln(x / 1e9)` in D9. Zero has no logarithm; `1.0` gives zero exactly; below `1.0`
/// the value is `-ln(1e18 / x)`; above `2.0` it is `ln(x * 1e9 / e) + 1.0`, with `e`
/// in D9; in `(1.0, 2.0]` it is the series in `y = x - 1.0`.
pub open spec fn ln_d9(x: int) -> Result<int, ErrorCode>
    decreases ln_reduction_measure(x),
    via ln_d9_decreases
{
    if x <= 0 {
        Err(ErrorCode::MathOverflow)
    } else if x == D9 {
        Ok(0)
    } else if x < D9 {
        match ln_d9((D9 * D9) / x) {
            Ok(v) => Ok(-v),
            Err(e) => Err(e),
        }
    } else if x > 2 * D9 {
        if x * D9 > u128::MAX {
            Err(ErrorCode::MathOverflow)
        } else {
            match ln_d9(x * D9 / (E_D9 as int)) {
                Ok(v) => Ok(v + D9),
                Err(e) => Err(e),
            }
        }
    } else {
        Ok(ln_series(x - D9, 1, x - D9, 0))
    }
}

#[via_fn]
proof fn ln_d9_decreases(x: int) {
    if 0 < x < D9 {
        lemma_inverse_step(x);
    } else if x > 2 * D9 && x * D9 <= u128::MAX {
        lemma_reduction_step(x);
    }
}

/// The inverse of a value below `1.0` is at least `1.0`.
proof fn lemma_inverse_step(x: int)
    requires
        0 < x < D9,
    ensures
        D9 <= (D9 * D9) / x <= D9 * D9,
{
    lemma_div_is_ordered_by_denominator((D9 * D9) as int, x, D9 as int);
    lemma_div_is_ordered_by_denominator((D9 * D9) as int, 1, x);
    assert((D9 * D9) / (D9 as int) == D9);
}

/// One reduction step above `2.0` lands on a positive value whose measure is lower
/// by at least `1.0`.
proof fn lemma_reduction_step(x: int)
    requires
        x > 2 * D9,
    ensures
        x * D9 / (E_D9 as int) > 0,
        ln_reduction_measure(x * D9 / (E_D9 as int)) + D9 <= ln_reduction_measure(x),
{
    let r = x * D9 / (E_D9 as int);
    lemma_div_is_ordered((2 * D9 + 1) * D9, x * D9, E_D9 as int);
    assert((2 * D9 + 1) * D9 / (E_D9 as int) == 735758882);
    lemma_fundamental_div_mod(x * D9, E_D9 as int);
    assert(r * E_D9 <= x * D9) by {
        assert(0 <= (x * D9) % (E_D9 as int));
    }
    if r < D9 {
        lemma_div_is_ordered_by_denominator((D9 * D9) as int, 735758882, r);
        assert((D9 * D9) / 735758882 == 1359140914);
    }
}

/// Every value of the logarithm is bounded by its argument's reduction measure.
proof fn lemma_ln_d9_bound(x: int)
    requires
        x > 0,
    ensures
        ln_d9(x) is Ok ==> -(20 * D9 + ln_reduction_measure(x)) <= ln_d9(x)->Ok_0
            <= 20 * D9 + ln_reduction_measure(x),
    decreases ln_reduction_measure(x),
{
    if x == D9 {
    } else if x < D9 {
        lemma_inverse_step(x);
        lemma_ln_d9_bound((D9 * D9) / x);
    } else if x > 2 * D9 {
        if x * D9 <= u128::MAX {
            lemma_reduction_step(x);
            lemma_ln_d9_bound(x * D9 / (E_D9 as int));
        }
    } else {
        lemma_ln_series_bound(x - D9, 1, x - D9, 0);
    }
}

/// The series never strays more than `1.0` per step from zero.
proof fn lemma_ln_series_bound(y: int, n: nat, y_power: int, acc: int)
    requires
        0 <= y <= D9,
        0 <= y_power <= D9,
        1 <= n <= SERIES_TERMS + 1,
        -(n - 1) * D9 <= acc <= (n - 1) * D9,
    ensures
        -20 * D9 <= ln_series(y, n, y_power, acc) <= 20 * D9,
    decreases SERIES_TERMS + 1 - n,
{
    if n <= SERIES_TERMS {
        lemma_power_step(y, y_power);
        lemma_div_is_ordered_by_denominator(y_power, 1, n as int);
        lemma_ln_series_bound(y, n + 1, y_power * y / (D9 as int), acc + (y_power / (n as int)));
        lemma_ln_series_bound(y, n + 1, y_power * y / (D9 as int), acc - (y_power / (n as int)));
    }
}

/// Multiplying a power of `y <= 1.0` by `y` keeps it within `[0, 1.0]`.
proof fn lemma_power_step(y: int, y_power: int)
    requires
        0 <= y <= D9,
        0 <= y_power <= D9,
    ensures
        0 <= y_power * y / (D9 as int) <= y_power,
{
    assert(0 <= y_power * y <= y_power * D9) by (nonlinear_arith)
        requires
            0 <= y <= D9,
            0 <= y_power,
    ;
    lemma_div_is_ordered(0, y_power * y, D9 as int);
    lemma_div_is_ordered(y_power * y, y_power * D9, D9 as int);
    assert(y_power * D9 / (D9 as int) == y_power);
}

fn ln_series_d9(x: u128) -> (r: i128)
    requires
        D9 < x <= 2 * D9,
    ensures
        r as int == ln_series(x - D9, 1, x - D9, 0),
{
    let y: i128 = (x - D9) as i128;
    let mut result: i128 = 0;
    let mut y_power: i128 = y;
    let mut n: u32 = 1;
    while n <= SERIES_TERMS
        invariant_except_break
            1 <= n <= SERIES_TERMS + 1,
            0 < y <= D9_I128,
            0 <= y_power <= D9_I128,
            -(n - 1) * D9 <= result <= (n - 1) * D9,
            ln_series(y as int, n as nat, y_power as int, result as int) == ln_series(
                y as int,
                1,
                y as int,
                0,
            ),
        ensures
            ln_series(y as int, 1, y as int, 0) == result as int,
        decreases SERIES_TERMS + 1 - n,
    {
        let q: i128 = ((y_power as u128) / (n as u128)) as i128;
        proof {
            lemma_div_is_ordered_by_denominator(y_power as int, 1, n as int);
        }
        let t: i128 = if n % 2 == 1 {
            q
        } else {
            -q
        };
        if -1 < t && t < 1 {
            break;
        }
        result = result + t;
        proof {
            lemma_power_step(y as int, y_power as int);
        }
        y_power = ((y_power as u128) * (y as u128) / D9) as i128;
        n = n + 1;
    }
    result
}

/// Fixed-point natural logarithm: `ln(x / 1e9)` scaled by `1e9`.
pub fn fp_ln(x: u128) -> (r: Result<i128, ErrorCode>)
    ensures
        widen_i128(r) == ln_d9(x as int),
        x == 0 ==> r == Err::<i128, ErrorCode>(ErrorCode::MathOverflow),
        x == D9 ==> r == Ok::<i128, ErrorCode>(0),
    decreases ln_reduction_measure(x as int),
{
    if x == 0 {
        return Err(ErrorCode::MathOverflow);
    }
    if x == D9 {
        return Ok(0);
    }
    if x < D9 {
        let inv: u128 = (D9 * D9) / x;
        proof {
            lemma_inverse_step(x as int);
            lemma_ln_d9_bound(inv as int);
        }
        return match fp_ln(inv) {
            Ok(v) => Ok(-v),
            Err(e) => Err(e),
        };
    }
    if x > 2 * D9 {
        let p: u128 = match x.checked_mul(D9) {
            Some(p) => p,
            None => return Err(ErrorCode::MathOverflow),
        };
        let reduced: u128 = p / E_D9;
        proof {
            lemma_reduction_step(x as int);
            lemma_ln_d9_bound(reduced as int);
        }
        return match fp_ln(reduced) {
            Ok(v) => Ok(v + D9_I128),
            Err(e) => Err(e),
        };
    }
    Ok(ln_series_d9(x))
}

} // verus!
