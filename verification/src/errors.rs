use vstd::prelude::*;

verus! {

/// Every fallible operation of the crate returns exactly one of these
/// error kinds. A failed operation never leaves state partially mutated.
#[derive(Clone, Copy, Debug, PartialEq, Eq, Structural)]
pub enum FacemeltError {
    // Validation
    ZeroSwapAmount,
    InvalidLeverage,
    InvalidBondingCurveParams,
    InvalidPosition,
    InvalidTokenAccounts,
    Unauthorized,
    // Liquidity and slippage
    InsufficientLiquidity,
    SlippageToleranceExceeded,
    InsufficientOutput,
    InsufficientFunds,
    InsufficientCurveTokens,
    InsufficientCurveSol,
    InsufficientTokensSold,
    // State
    PoolAlreadyInitialized,
    InvalidPoolState,
    BondingCurveAlreadyGraduated,
    BondingCurveNotActive,
    PositionNotClosable,
    PositionNotLiquidatable,
    // Safety
    LiquidationPriceManipulation,
    ExcessiveLeverage,
    // Arithmetic
    MathOverflow,
    MathUnderflow,
}

} // verus!
