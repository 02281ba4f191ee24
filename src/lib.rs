//! Pricing core of a logarithmic-market-scoring-rule market maker, in D9
//! fixed-point integer arithmetic.
pub mod constants;
pub mod errors;
pub mod fixed_point;
pub mod market;
pub mod theorems;

pub use errors::ErrorCode;
pub use fixed_point::{fp_exp, fp_ln};
pub use market::{init_market, Market};
