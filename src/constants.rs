//! Numeric constants shared by the fixed-point library and the market model.
use vstd::prelude::*;

verus! {

/// One unit in D9 fixed point (1.0 == 1_000_000_000).
pub const D9: u128 = 1_000_000_000;

/// One unit in D9 fixed point, signed.
pub const D9_I128: i128 = 1_000_000_000;

/// Euler's number in D9 fixed point.
pub const E_D9: u128 = 2_718_281_828;

/// Largest exponent magnitude, in D9, on which the exponential series runs.
pub const EXP_DOMAIN: i128 = 20_000_000_000;

/// Number of series terms after the leading one.
pub const SERIES_TERMS: u32 = 20;

/// Largest number of outcomes a market may hold.
pub const MAX_OUTCOMES: usize = 16;

/// Smallest number of outcomes a market may hold.
pub const MINIMUM_OUTCOMES_PER_MARKET: u8 = 2;

/// Shortest time, in seconds, between creation and resolution.
pub const MIN_MARKET_DURATION: i64 = 1;

} // verus!
