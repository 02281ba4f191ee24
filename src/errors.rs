//! The closed set of failures that the library reports.
use vstd::prelude::*;

verus! {

/// Every failure kind of the market program.
#[derive(Debug, Clone, Copy, PartialEq, Eq, Structural)]
pub enum ErrorCode {
    TooManyOutcomes,
    NotEnoughOutcomes,
    AccountNotSigner,
    AccountNotWritable,
    AccountNotExecutable,
    MissingRemainingAccount,
    InvalidTokenProgram,
    MathOverflow,
    InvalidAccountOwner,
    InvalidOutcomeIndex,
    TransferFailed,
    TokenMintFailed,
    InvalidMintCount,
    InvalidMintSeed,
    InvalidLabelLength,
    DepositIsZero,
    BurnIsZero,
    SharesAreZero,
    InsufficientFunds,
    BurnIsMoreThanSupply,
    InsufficientVaultFunds,
    VaultTransferFailed,
    MarketExpired,
    MarketNotReadyToResolve,
    MarketTooQuick,
    ReserveIsZero,
    LiquidityParameterIsZero,
    SupplyIsZero,
    OutcomeHasZeroReserves,
    NoOutcomeHasConsensus,
    MarketAlreadyResolved,
    MarketNotResolved,
    OutcomeNotWinner,
}

} // verus!
