//! Core mathematics and state machine of a constant-product market maker
//! with built-in leveraged positions, a linear bonding-curve launch phase,
//! and on-demand liquidation.
//!
//! The crate is organised in dependency order: fixed-point numeric
//! primitives, the bonding curve, the two-reserve pool with its funding
//! engine, the leveraged-position lifecycle, and the operations that tie
//! the phases together. Token custody, account plumbing and event
//! transport are left to the host; every function here works on recorded
//! amounts alone.

pub mod errors;
pub mod fixed_point;
pub mod curve;
pub mod pool;
pub mod funding;
pub mod position;
pub mod events;
pub mod ops;
pub mod laws;
