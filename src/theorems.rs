//! Properties of the market that hold for every state, proved over the spec
//! functions that the operations' contracts use.
use vstd::prelude::*;
use vstd::arithmetic::div_mod::{
    lemma_div_is_ordered, lemma_fundamental_div_mod, lemma_hoist_over_denominator,
};

use crate::constants::{D9, MAX_OUTCOMES};
use crate::errors::ErrorCode;
use crate::fixed_point::{div_toward_zero, exp_d9, exp_series};
use crate::market::Market;

verus! {

/// Sum of the prices of the first `k` outcomes, a failed price counting as zero.
pub open spec fn price_total(m: Market, k: nat) -> int
    decreases k,
{
    if k == 0 {
        0
    } else {
        price_total(m, (k - 1) as nat) + match m.price_value(k - 1) {
            Ok(p) => p,
            Err(_) => 0,
        }
    }
}

/// From a non-negative exponent, non-negative terms only raise the running sum.
proof fn lemma_exp_series_grows(x: int, n: nat, term: int, acc: int)
    requires
        x >= 0,
        term >= 0,
        n >= 1,
    ensures
        exp_series(x, n, term, acc) matches Some(v) ==> v >= acc,
    decreases crate::constants::SERIES_TERMS + 1 - n,
{
    if n <= crate::constants::SERIES_TERMS {
        assert(term * x >= 0) by (nonlinear_arith)
            requires
                x >= 0,
                term >= 0,
        ;
        let p = term * x;
        let t = div_toward_zero(div_toward_zero(p, D9 as int), n as int);
        lemma_div_is_ordered(0, p, D9 as int);
        lemma_div_is_ordered(0, p / (D9 as int), n as int);
        assert(t >= 0);
        lemma_exp_series_grows(x, n + 1, t, acc + t);
    }
}

/// The exponential of a non-negative exponent is at least `1.0`.
pub proof fn lemma_exp_at_least_one(x: int)
    requires
        x >= 0,
    ensures
        exp_d9(x) matches Ok(v) ==> v >= D9,
{
    lemma_exp_series_grows(x, 1, D9 as int, D9 as int);
}

/// A successful sum of exponentials over `k` outcomes is at least `k` times `1.0`.
proof fn lemma_exp_sum_lower(m: Market, k: nat)
    requires
        m.scale > 0,
        m.exp_sum(k) is Ok,
    ensures
        m.exp_sum(k)->Ok_0 >= k * D9,
    decreases k,
{
    if k > 0 {
        lemma_exp_sum_lower(m, (k - 1) as nat);
        lemma_exp_at_least_one((m.supplies@[k - 1] / m.scale) as int);
    }
}

/// A successful sum of exponentials over `n` outcomes succeeds on every prefix, and
/// each prefix sum is the previous one plus that outcome's exponential, at least `1.0`.
proof fn lemma_exp_sum_prefix(m: Market, k: nat, n: nat)
    requires
        m.scale > 0,
        k <= n,
        m.exp_sum(n) is Ok,
    ensures
        m.exp_sum(k) is Ok,
        k * D9 <= m.exp_sum(k)->Ok_0 <= m.exp_sum(n)->Ok_0,
        k < n ==> m.outcome_exp(k as int) is Ok,
        k < n ==> m.outcome_exp(k as int)->Ok_0 >= D9,
        k < n ==> m.exp_sum((k + 1) as nat)->Ok_0 == m.exp_sum(k)->Ok_0 + m.outcome_exp(
            k as int,
        )->Ok_0,
    decreases n - k,
{
    if k < n {
        lemma_exp_sum_prefix(m, k + 1, n);
        lemma_exp_at_least_one((m.supplies@[k as int] / m.scale) as int);
    }
    lemma_exp_sum_lower(m, k);
}

/// The running price total brackets `D9 * E_k / S` from below and above, where `E_k`
/// is the sum of the first `k` exponentials and `S` that of all of them.
proof fn lemma_price_total_bounds(m: Market, k: nat)
    requires
        m.is_configured(),
        k <= m.num_outcomes,
        m.exp_sum(m.num_outcomes as nat) is Ok,
        forall|j: int| 0 <= j < m.num_outcomes ==> #[trigger] m.price_value(j) is Ok,
    ensures
        ({
            let s = m.exp_sum(m.num_outcomes as nat)->Ok_0;
            let e = m.exp_sum(k)->Ok_0;
            &&& s * price_total(m, k) <= D9 * e
            &&& s * price_total(m, k) >= D9 * e - k * (s - 1)
        }),
    decreases k,
{
    let n = m.num_outcomes as nat;
    let s = m.exp_sum(n)->Ok_0;
    lemma_exp_sum_prefix(m, 0, n);
    assert(s >= D9) by {
        lemma_exp_sum_prefix(m, 1, n);
        lemma_exp_sum_prefix(m, 0, n);
    }
    if k > 0 {
        let j = (k - 1) as nat;
        lemma_price_total_bounds(m, j);
        lemma_exp_sum_prefix(m, j, n);
        lemma_exp_sum_prefix(m, k, n);
        let e_j = m.outcome_exp(j as int)->Ok_0;
        let prev = m.exp_sum(j)->Ok_0;
        let total = price_total(m, j);
        assert(m.price_value(j as int) is Ok);
        assert(e_j <= s);
        let q = e_j * D9 / s;
        lemma_fundamental_div_mod(e_j * D9, s);
        let r = (e_j * D9) % s;
        assert(0 <= r < s);
        assert(q <= D9) by {
            assert(e_j * D9 <= s * D9) by (nonlinear_arith)
                requires
                    e_j <= s,
            ;
            lemma_div_is_ordered(e_j * D9, s * D9, s);
            assert(s * D9 / s == D9) by (nonlinear_arith)
                requires
                    s > 0,
            ;
        }
        assert(m.price_value(j as int) == Ok::<int, ErrorCode>(q));
        assert(price_total(m, k) == total + q);
        assert(s * (total + q) == s * total + s * q) by (nonlinear_arith);
        assert(k * (s - 1) == j * (s - 1) + (s - 1)) by (nonlinear_arith)
            requires
                k == j + 1,
        ;
    }
}

/// Prices over all outcomes sum to `1.0` (D9) up to rounding: never above it, and
/// below it by at most one unit for each outcome after the first. With two outcomes
/// the sum is `1.0` within one unit.
pub proof fn lemma_prices_sum_to_one(m: Market)
    requires
        m.is_configured(),
        forall|j: int| 0 <= j < m.num_outcomes ==> #[trigger] m.price_value(j) is Ok,
    ensures
        D9 - (m.num_outcomes - 1) <= price_total(m, m.num_outcomes as nat) <= D9,
        m.num_outcomes == 2 ==> D9 - 1 <= price_total(m, 2) <= D9,
{
    let n = m.num_outcomes as nat;
    assert(m.price_value(0) is Ok);
    assert(m.exp_sum(n) is Ok);
    let s = m.exp_sum(n)->Ok_0;
    lemma_exp_sum_prefix(m, 0, n);
    lemma_exp_sum_prefix(m, 1, n);
    lemma_price_total_bounds(m, n);
    let t = price_total(m, n);
    assert(t <= D9) by (nonlinear_arith)
        requires
            s > 0,
            s * t <= D9 * s,
    ;
    if t < D9 - n + 1 {
        assert(s * t <= s * (D9 - n)) by (nonlinear_arith)
            requires
                s > 0,
                t <= D9 - n,
        ;
        assert(s * (D9 - n) == D9 * s - n * s) by (nonlinear_arith);
        assert(n * (s - 1) == n * s - n) by (nonlinear_arith);
    }
}

/// With every supply at zero, the running sum of exponentials is `k` times `1.0`.
proof fn lemma_exp_sum_fresh(m: Market, k: nat)
    requires
        m.scale > 0,
        k <= MAX_OUTCOMES,
        forall|j: int| 0 <= j < k ==> #[trigger] m.supplies@[j] == 0,
    ensures
        m.exp_sum(k) == Ok::<int, ErrorCode>(k * D9),
    decreases k,
{
    if k > 0 {
        lemma_exp_sum_fresh(m, (k - 1) as nat);
        assert(m.supplies@[k - 1] == 0);
        assert(exp_series(0, 1, D9 as int, D9 as int) == Some(D9 as int));
    }
}

/// A purchase of one smallest unit against a fresh market whose liquidity parameter
/// is `1.0` (in D9) mints no share and is refused as a degenerate trade.
pub proof fn lemma_unit_purchase_is_degenerate(m: Market, outcome_index: int)
    requires
        m.is_configured(),
        m.scale == D9,
        forall|j: int| 0 <= j < m.num_outcomes ==> #[trigger] m.supplies@[j] == 0,
        0 <= outcome_index < m.num_outcomes,
    ensures
        m.purchase_shares(outcome_index, 1) == Err::<int, ErrorCode>(ErrorCode::DepositIsZero),
{
    let n = m.num_outcomes as nat;
    lemma_exp_sum_fresh(m, n);
    assert(m.supplies@[outcome_index] == 0);
    assert(exp_series(0, 1, D9 as int, D9 as int) == Some(D9 as int));
    assert(m.outcome_exp(outcome_index) == Ok::<int, ErrorCode>(D9 as int));
    assert(1 * D9 / (m.scale as int) == 1);
    assert(exp_series(1, 2, 1, D9 + 1) == Some(D9 + 1));
    assert(exp_series(1, 1, D9 as int, D9 as int) == Some(D9 + 1));
    assert(exp_d9(1) == Ok::<int, ErrorCode>(D9 + 1));
    let s = n * D9;
    assert(s * (D9 + 1 - D9) / (D9 as int) / (D9 as int) == 0);
    assert(m.purchase_ln_arg(outcome_index, 1) == Ok::<int, ErrorCode>(D9 as int));
}

/// A successful purchase mints a whole positive multiple of the liquidity parameter,
/// so the bought outcome's D9 ratio `q_i / b` rises by exactly `shares / b`, at
/// least one unit.
pub proof fn lemma_purchase_raises_ratio(m: Market, outcome_index: int, amount: int, shares: int)
    requires
        m.purchase_shares(outcome_index, amount) == Ok::<int, ErrorCode>(shares),
    ensures
        shares >= m.scale,
        shares % (m.scale as int) == 0,
        (m.supplies@[outcome_index] + shares) / (m.scale as int) == m.supplies@[outcome_index]
            / m.scale + shares / (m.scale as int),
        shares / (m.scale as int) >= 1,
{
    let b = m.scale as int;
    let k = crate::fixed_point::ln_d9(m.purchase_ln_arg(outcome_index, amount)->Ok_0)->Ok_0;
    assert(b > 0 && k >= 1 && shares == b * k);
    assert(shares >= b) by (nonlinear_arith)
        requires
            k >= 1,
            b > 0,
            shares == b * k,
    ;
    lemma_fundamental_div_mod(shares, b);
    vstd::arithmetic::div_mod::lemma_div_multiples_vanish(k, b);
    vstd::arithmetic::div_mod::lemma_mod_multiples_vanish(k, 0, b);
    assert(b * k == k * b) by (nonlinear_arith);
    lemma_hoist_over_denominator(m.supplies@[outcome_index] as int, k, b as nat);
}

} // verus!
