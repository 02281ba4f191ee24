//! The market record and the three operations priced by the logarithmic market
//! scoring rule: cost, share purchase and price.
use vstd::prelude::*;

use crate::constants::{D9, D9_I128, MAX_OUTCOMES, MINIMUM_OUTCOMES_PER_MARKET, MIN_MARKET_DURATION};
use crate::errors::ErrorCode;
use crate::fixed_point::{
    div_toward_zero, div_toward_zero_i128, exp_d9, fits_i128, fp_exp, fp_ln, ln_d9, widen_u128,
};

verus! {

/// Numeric state of one prediction market.
#[derive(Clone, Copy, Debug)]
pub struct Market {
    /// Amount paid into each outcome, in the settlement asset's smallest unit.
    pub reserves: [u64; MAX_OUTCOMES],
    /// Shares minted for each outcome, in D9 fixed point.
    pub supplies: [u64; MAX_OUTCOMES],
    /// Liquidity parameter `b`, in the unit of `reserves`.
    pub scale: u64,
    /// Creation time, in seconds.
    pub initialized_at: u64,
    /// Time, in seconds, at which the market resolves and trading halts.
    pub resolve_at: i64,
    /// Identity of the account that administers the market.
    pub admin: [u8; 32],
    /// Number of active outcomes.
    pub num_outcomes: u8,
    /// Derivation metadata of the market's address.
    pub bump: u8,
    /// Derivation metadata of the vault that holds the reserves.
    pub vault_bump: u8,
}

/// A `Result` of `u64` seen as a `Result` of `int`.
pub open spec fn widen_u64(r: Result<u64, ErrorCode>) -> Result<int, ErrorCode> {
    match r {
        Ok(v) => Ok(v as int),
        Err(e) => Err(e),
    }
}

impl Market {
    /// The state every operation expects: an outcome count within bounds and a
    /// positive liquidity parameter.
    pub open spec fn is_configured(&self) -> bool {
        &&& MINIMUM_OUTCOMES_PER_MARKET <= self.num_outcomes <= MAX_OUTCOMES
        &&& self.scale > 0
    }

    /// `e^(q_i / b)` in D9, where the D9 ratio `q_i / b` is rounded down.
    pub open spec fn outcome_exp(&self, i: int) -> Result<int, ErrorCode> {
        exp_d9((self.supplies@[i] / self.scale) as int)
    }

    /// `Σ_{j < k} e^(q_j / b)`, accumulated left to right into a `u128`.
    pub open spec fn exp_sum(&self, k: nat) -> Result<int, ErrorCode>
        decreases k,
    {
        if k == 0 {
            Ok(0)
        } else {
            match self.exp_sum((k - 1) as nat) {
                Err(e) => Err(e),
                Ok(acc) => match self.outcome_exp(k - 1) {
                    Err(e) => Err(e),
                    Ok(v) => if acc + v > u128::MAX {
                        Err(ErrorCode::MathOverflow)
                    } else {
                        Ok(acc + v)
                    },
                },
            }
        }
    }

    /// `C(q) = b * ln(Σ_j e^(q_j / b))`, with the D9 factor taken out toward zero.
    pub open spec fn cost_value(&self) -> Result<int, ErrorCode> {
        if self.num_outcomes > MAX_OUTCOMES {
            Err(ErrorCode::InvalidOutcomeIndex)
        } else if self.scale == 0 {
            Err(ErrorCode::ReserveIsZero)
        } else {
            match self.exp_sum(self.num_outcomes as nat) {
                Err(e) => Err(e),
                Ok(s) => match ln_d9(s) {
                    Err(e) => Err(e),
                    Ok(l) => {
                        let p = self.scale * l;
                        if !fits_i128(p) {
                            Err(ErrorCode::MathOverflow)
                        } else {
                            let c = div_toward_zero(p, D9 as int);
                            if c < 0 || c > u64::MAX {
                                Err(ErrorCode::MathOverflow)
                            } else {
                                Ok(c)
                            }
                        }
                    },
                },
            }
        }
    }

    /// `p_i = e^(q_i / b) / Σ_j e^(q_j / b)` in D9, rounded down and capped at
    /// `u64::MAX`; zero when the sum is zero.
    pub open spec fn price_value(&self, i: int) -> Result<int, ErrorCode> {
        if self.num_outcomes > MAX_OUTCOMES || i >= self.num_outcomes {
            Err(ErrorCode::InvalidOutcomeIndex)
        } else if self.scale == 0 {
            Err(ErrorCode::LiquidityParameterIsZero)
        } else {
            match self.outcome_exp(i) {
                Err(e) => Err(e),
                Ok(e_i) => match self.exp_sum(self.num_outcomes as nat) {
                    Err(e) => Err(e),
                    Ok(s) => if s == 0 {
                        Ok(0)
                    } else if e_i * D9 > u128::MAX {
                        Err(ErrorCode::MathOverflow)
                    } else if e_i * D9 / s > u64::MAX {
                        Ok(u64::MAX as int)
                    } else {
                        Ok(e_i * D9 / s)
                    },
                },
            }
        }
    }

    /// The argument of the logarithm in a purchase of `amount` for outcome `i`:
    /// `1 + S * (e^(amount / b) - 1) / e^(q_i / b)`, where the quotient by
    /// `e^(q_i / b)` is rounded down to a whole number before it is scaled to D9.
    pub open spec fn purchase_ln_arg(&self, i: int, amount: int) -> Result<int, ErrorCode> {
        match self.exp_sum(self.num_outcomes as nat) {
            Err(e) => Err(e),
            Ok(s) => match self.outcome_exp(i) {
                Err(e) => Err(e),
                Ok(e_i) => match exp_d9(amount * D9 / (self.scale as int)) {
                    Err(e) => Err(e),
                    Ok(e_a) => if e_a < D9 || s * (e_a - D9) > u128::MAX || e_i == 0 {
                        Err(ErrorCode::MathOverflow)
                    } else {
                        let fraction = s * (e_a - D9) / (D9 as int) / e_i;
                        if fraction * D9 + D9 > u128::MAX {
                            Err(ErrorCode::MathOverflow)
                        } else {
                            Ok(fraction * D9 + D9)
                        }
                    },
                },
            },
        }
    }

    /// Shares minted by a purchase of `amount` for outcome `i`:
    /// `Δq = b * ln(1 + S * (e^(amount / b) - 1) / e^(q_i / b))`, or the reason the
    /// purchase is refused.
    pub open spec fn purchase_shares(&self, i: int, amount: int) -> Result<int, ErrorCode> {
        if self.num_outcomes > MAX_OUTCOMES || i >= self.num_outcomes {
            Err(ErrorCode::InvalidOutcomeIndex)
        } else if amount == 0 {
            Err(ErrorCode::DepositIsZero)
        } else if self.scale == 0 {
            Err(ErrorCode::LiquidityParameterIsZero)
        } else {
            match self.purchase_ln_arg(i, amount) {
                Err(e) => Err(e),
                Ok(arg) => match ln_d9(arg) {
                    Err(e) => Err(e),
                    Ok(l) => {
                        let shares = self.scale * l;
                        if l <= 0 {
                            Err(ErrorCode::DepositIsZero)
                        } else if shares > u64::MAX || self.supplies@[i] + shares > u64::MAX
                            || self.reserves@[i] + amount > u64::MAX {
                            Err(ErrorCode::MathOverflow)
                        } else {
                            Ok(shares)
                        }
                    },
                },
            }
        }
    }
}

/// Once the running sum of exponentials fails, every longer prefix fails the same way.
proof fn lemma_exp_sum_err(m: Market, i: nat, k: nat)
    requires
        i <= k,
        m.exp_sum(i) is Err,
    ensures
        m.exp_sum(k) == m.exp_sum(i),
    decreases k - i,
{
    if i < k {
        lemma_exp_sum_err(m, i, (k - 1) as nat);
    }
}

impl Market {
    /// Whether two records agree on everything but reserves and supplies.
    pub open spec fn same_terms(&self, other: Market) -> bool {
        &&& self.scale == other.scale
        &&& self.initialized_at == other.initialized_at
        &&& self.resolve_at == other.resolve_at
        &&& self.admin == other.admin
        &&& self.num_outcomes == other.num_outcomes
        &&& self.bump == other.bump
        &&& self.vault_bump == other.vault_bump
    }

    fn outcome_ratio(&self, i: usize) -> (r: i128)
        requires
            i < MAX_OUTCOMES,
            self.scale > 0,
        ensures
            r == self.supplies@[i as int] / self.scale,
    {
        (self.supplies[i] / self.scale) as i128
    }

    fn sum_exp(&self) -> (r: Result<u128, ErrorCode>)
        requires
            self.num_outcomes <= MAX_OUTCOMES,
            self.scale > 0,
        ensures
            widen_u128(r) == self.exp_sum(self.num_outcomes as nat),
    {
        let n = self.num_outcomes as usize;
        let mut sum: u128 = 0;
        let mut i: usize = 0;
        while i < n
            invariant
                n == self.num_outcomes,
                n <= MAX_OUTCOMES,
                self.scale > 0,
                i <= n,
                self.exp_sum(i as nat) == Ok::<int, ErrorCode>(sum as int),
            decreases n - i,
        {
            let e = match fp_exp(self.outcome_ratio(i)) {
                Ok(v) => v,
                Err(err) => {
                    proof {
                        assert(self.exp_sum((i + 1) as nat) == Err::<int, ErrorCode>(err));
                        lemma_exp_sum_err(*self, (i + 1) as nat, n as nat);
                    }
                    return Err(err);
                },
            };
            sum = match sum.checked_add(e) {
                Some(v) => v,
                None => {
                    proof {
                        assert(self.exp_sum((i + 1) as nat) == Err::<int, ErrorCode>(
                            ErrorCode::MathOverflow,
                        ));
                        lemma_exp_sum_err(*self, (i + 1) as nat, n as nat);
                    }
                    return Err(ErrorCode::MathOverflow);
                },
            };
            i = i + 1;
        }
        Ok(sum)
    }

    /// LMSR cost `C(q) = b * ln(Σ_j e^(q_j / b))`, in the unit of `reserves`.
    pub fn cost(&self) -> (r: Result<u64, ErrorCode>)
        ensures
            widen_u64(r) == self.cost_value(),
    {
        let n = self.num_outcomes as usize;
        if n > MAX_OUTCOMES {
            return Err(ErrorCode::InvalidOutcomeIndex);
        }
        if self.scale == 0 {
            return Err(ErrorCode::ReserveIsZero);
        }
        let sum_exp = match self.sum_exp() {
            Ok(v) => v,
            Err(e) => return Err(e),
        };
        let ln_sum = match fp_ln(sum_exp) {
            Ok(v) => v,
            Err(e) => return Err(e),
        };
        let product = match (self.scale as i128).checked_mul(ln_sum) {
            Some(v) => v,
            None => return Err(ErrorCode::MathOverflow),
        };
        let c = div_toward_zero_i128(product, D9_I128);
        if c < 0 || c > u64::MAX as i128 {
            return Err(ErrorCode::MathOverflow);
        }
        Ok(c as u64)
    }

    /// LMSR price of outcome `outcome_index`, a probability in D9.
    pub fn price(&self, outcome_index: usize) -> (r: Result<u64, ErrorCode>)
        ensures
            widen_u64(r) == self.price_value(outcome_index as int),
    {
        let n = self.num_outcomes as usize;
        if n > MAX_OUTCOMES || outcome_index >= n {
            return Err(ErrorCode::InvalidOutcomeIndex);
        }
        if self.scale == 0 {
            return Err(ErrorCode::LiquidityParameterIsZero);
        }
        let exp_i = match fp_exp(self.outcome_ratio(outcome_index)) {
            Ok(v) => v,
            Err(e) => return Err(e),
        };
        let sum_exp = match self.sum_exp() {
            Ok(v) => v,
            Err(e) => return Err(e),
        };
        if sum_exp == 0 {
            return Ok(0);
        }
        let scaled = match exp_i.checked_mul(D9) {
            Some(v) => v,
            None => return Err(ErrorCode::MathOverflow),
        };
        let p = scaled / sum_exp;
        if p > u64::MAX as u128 {
            Ok(u64::MAX)
        } else {
            Ok(p as u64)
        }
    }

    fn ln_argument(&self, i: usize, amount: u64) -> (r: Result<u128, ErrorCode>)
        requires
            self.num_outcomes <= MAX_OUTCOMES,
            i < self.num_outcomes,
            self.scale > 0,
        ensures
            widen_u128(r) == self.purchase_ln_arg(i as int, amount as int),
    {
        let sum_exp = match self.sum_exp() {
            Ok(v) => v,
            Err(e) => return Err(e),
        };
        let exp_i = match fp_exp(self.outcome_ratio(i)) {
            Ok(v) => v,
            Err(e) => return Err(e),
        };
        let amount_ratio: i128 = ((amount as u128) * D9 / (self.scale as u128)) as i128;
        let exp_amount = match fp_exp(amount_ratio) {
            Ok(v) => v,
            Err(e) => return Err(e),
        };
        let excess = match exp_amount.checked_sub(D9) {
            Some(v) => v,
            None => return Err(ErrorCode::MathOverflow),
        };
        let product = match sum_exp.checked_mul(excess) {
            Some(v) => v,
            None => return Err(ErrorCode::MathOverflow),
        };
        let numerator = product / D9;
        let fraction = match numerator.checked_div(exp_i) {
            Some(v) => v,
            None => return Err(ErrorCode::MathOverflow),
        };
        let scaled = match fraction.checked_mul(D9) {
            Some(v) => v,
            None => return Err(ErrorCode::MathOverflow),
        };
        match scaled.checked_add(D9) {
            Some(v) => Ok(v),
            None => Err(ErrorCode::MathOverflow),
        }
    }

    /// Buys shares of outcome `outcome_index` for `amount_in`, returning the shares
    /// minted. On success the outcome's supply grows by the shares and its reserve by
    /// `amount_in`; on failure nothing changes.
    pub fn buy_shares(&mut self, outcome_index: usize, amount_in: u64) -> (r: Result<
        u64,
        ErrorCode,
    >)
        ensures
            widen_u64(r) == old(self).purchase_shares(outcome_index as int, amount_in as int),
            final(self).same_terms(*old(self)),
            old(self).is_configured() ==> final(self).is_configured(),
            r is Ok ==> final(self).supplies@ == old(self).supplies@.update(
                outcome_index as int,
                (old(self).supplies@[outcome_index as int] + r->Ok_0) as u64,
            ),
            r is Ok ==> final(self).reserves@ == old(self).reserves@.update(
                outcome_index as int,
                (old(self).reserves@[outcome_index as int] + amount_in) as u64,
            ),
            forall|j: int|
                0 <= j < MAX_OUTCOMES ==> #[trigger] final(self).supplies@[j]
                    >= old(self).supplies@[j] && final(self).reserves@[j]
                    >= old(self).reserves@[j],
            r is Err ==> *final(self) == *old(self),
    {
        let n = self.num_outcomes as usize;
        if n > MAX_OUTCOMES || outcome_index >= n {
            return Err(ErrorCode::InvalidOutcomeIndex);
        }
        if amount_in == 0 {
            return Err(ErrorCode::DepositIsZero);
        }
        if self.scale == 0 {
            return Err(ErrorCode::LiquidityParameterIsZero);
        }
        let ln_arg = match self.ln_argument(outcome_index, amount_in) {
            Ok(v) => v,
            Err(e) => return Err(e),
        };
        let ln_result = match fp_ln(ln_arg) {
            Ok(v) => v,
            Err(e) => return Err(e),
        };
        if ln_result <= 0 {
            return Err(ErrorCode::DepositIsZero);
        }
        let shares = match (self.scale as i128).checked_mul(ln_result) {
            Some(v) => v,
            None => return Err(ErrorCode::MathOverflow),
        };
        if shares > u64::MAX as i128 {
            return Err(ErrorCode::MathOverflow);
        }
        let shares_out = shares as u64;
        let supply = match self.supplies[outcome_index].checked_add(shares_out) {
            Some(v) => v,
            None => return Err(ErrorCode::MathOverflow),
        };
        let reserve = match self.reserves[outcome_index].checked_add(amount_in) {
            Some(v) => v,
            None => return Err(ErrorCode::MathOverflow),
        };
        self.supplies[outcome_index] = supply;
        self.reserves[outcome_index] = reserve;
        Ok(shares_out)
    }
}

impl Market {
    /// A fresh record with these terms: every reserve and supply zero, no creation
    /// time recorded.
    pub open spec fn created_with(
        &self,
        admin: [u8; 32],
        num_outcomes: u8,
        scale: u64,
        resolve_at: i64,
        bump: u8,
        vault_bump: u8,
    ) -> bool {
        &&& self.num_outcomes == num_outcomes
        &&& self.scale == scale
        &&& self.resolve_at == resolve_at
        &&& self.admin == admin
        &&& self.bump == bump
        &&& self.vault_bump == vault_bump
        &&& self.initialized_at == 0
        &&& forall|j: int|
            0 <= j < MAX_OUTCOMES ==> #[trigger] self.supplies@[j] == 0 && self.reserves@[j] == 0
    }
}

/// Why a market with these creation parameters is refused, checked in this order:
/// too few outcomes, a resolution time less than the minimum duration away, too
/// many outcomes, and an outcome-mint count that differs from the outcome count.
pub open spec fn creation_error(num_outcomes: u8, resolve_at: i64, now: i64, num_mints: usize) -> Option<
    ErrorCode,
> {
    if num_outcomes < MINIMUM_OUTCOMES_PER_MARKET {
        Some(ErrorCode::NotEnoughOutcomes)
    } else if now + MIN_MARKET_DURATION >= resolve_at {
        Some(ErrorCode::MarketTooQuick)
    } else if num_outcomes > MAX_OUTCOMES {
        Some(ErrorCode::TooManyOutcomes)
    } else if num_mints != num_outcomes {
        Some(ErrorCode::InvalidMintCount)
    } else {
        None
    }
}

/// Validates the creation parameters of a market and builds its record, with every
/// reserve and supply at zero. `now` is the current time and `num_mints` the number
/// of outcome mints supplied alongside.
pub fn init_market(
    admin: [u8; 32],
    num_outcomes: u8,
    scale: u64,
    resolve_at: i64,
    now: i64,
    num_mints: usize,
    bump: u8,
    vault_bump: u8,
) -> (r: Result<Market, ErrorCode>)
    ensures
        creation_error(num_outcomes, resolve_at, now, num_mints) matches Some(e) ==> r == Err::<
            Market,
            ErrorCode,
        >(e),
        creation_error(num_outcomes, resolve_at, now, num_mints) is None ==> r is Ok
            && r->Ok_0.created_with(admin, num_outcomes, scale, resolve_at, bump, vault_bump),
{
    if num_outcomes < MINIMUM_OUTCOMES_PER_MARKET {
        return Err(ErrorCode::NotEnoughOutcomes);
    }
    if (now as i128) + (MIN_MARKET_DURATION as i128) >= resolve_at as i128 {
        return Err(ErrorCode::MarketTooQuick);
    }
    if num_outcomes as usize > MAX_OUTCOMES {
        return Err(ErrorCode::TooManyOutcomes);
    }
    if num_mints != num_outcomes as usize {
        return Err(ErrorCode::InvalidMintCount);
    }
    Ok(Market {
        reserves: [0u64; MAX_OUTCOMES],
        supplies: [0u64; MAX_OUTCOMES],
        scale,
        initialized_at: 0,
        resolve_at,
        admin,
        num_outcomes,
        bump,
        vault_bump,
    })
}

} // verus!
