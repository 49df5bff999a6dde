//! Event payloads, one per successful transition. The core computes the
//! payload and hands it to the caller; emission is the host's job.
//!
//! Participants are carried as plain numeric identifiers; a position is
//! identified by its nonce within the `(pool, owner)` key.

use vstd::prelude::*;

verus! {

/// A pool was seeded directly in the AMM phase.
#[derive(Clone, Copy, Debug, PartialEq, Eq, Structural)]
pub struct PoolLaunched {
    pub pool: u64,
    pub authority: u64,
    pub sol_reserve: u64,
    pub token_reserve: u64,
    pub timestamp: i64,
}

/// A spot swap settled.
#[derive(Clone, Copy, Debug, PartialEq, Eq, Structural)]
pub struct Swapped {
    pub user: u64,
    pub pool: u64,
    pub input_is_sol: bool,
    pub amount_in: u64,
    pub amount_out: u64,
    pub timestamp: i64,
}

/// A leveraged position was opened.
#[derive(Clone, Copy, Debug, PartialEq, Eq, Structural)]
pub struct PositionOpened {
    pub user: u64,
    pub pool: u64,
    pub position: u64,
    pub is_long: bool,
    pub collateral: u64,
    pub leverage: u32,
    pub size: u64,
    pub timestamp: i64,
}

/// A position was closed by its owner.
#[derive(Clone, Copy, Debug, PartialEq, Eq, Structural)]
pub struct PositionClosed {
    pub user: u64,
    pub pool: u64,
    pub position: u64,
    pub is_long: bool,
    pub position_size: u64,
    pub output_amount: u64,
    pub user_received: u64,
    pub timestamp: i64,
}

/// A position was liquidated by a third party; the whole payout is the
/// liquidator's reward.
#[derive(Clone, Copy, Debug, PartialEq, Eq, Structural)]
pub struct PositionLiquidated {
    pub liquidator: u64,
    pub position_owner: u64,
    pub pool: u64,
    pub position: u64,
    pub position_size: u64,
    pub expected_output: u64,
    pub liquidator_reward: u64,
    pub timestamp: i64,
}

/// A market was created in the bonding-curve phase.
#[derive(Clone, Copy, Debug, PartialEq, Eq, Structural)]
pub struct BondingCurveLaunched {
    pub pool: u64,
    pub authority: u64,
    pub total_supply: u64,
    pub target_sol: u64,
    pub target_tokens_sold: u64,
    pub timestamp: i64,
}

/// A trade settled on the bonding curve.
#[derive(Clone, Copy, Debug, PartialEq, Eq, Structural)]
pub struct BondingCurveSwapped {
    pub user: u64,
    pub pool: u64,
    pub input_is_sol: bool,
    pub amount_in: u64,
    pub amount_out: u64,
    pub tokens_sold_on_curve: u64,
    pub sol_raised_on_curve: u64,
    pub timestamp: i64,
}

/// A curve met a graduation target and seeded the AMM.
#[derive(Clone, Copy, Debug, PartialEq, Eq, Structural)]
pub struct BondingCurveGraduated {
    pub pool: u64,
    pub sol_raised: u64,
    pub tokens_for_lp: u64,
    pub timestamp: i64,
}

} // verus!
