//! Reward-round ledger of a perpetual-futures staking protocol.
//!
//! The ledger accrues protocol-fee-derived rewards, distributes them pro rata
//! to staking participants across discrete time rounds, and prunes its own
//! bounded history. All arithmetic is exact fixed point with explicit
//! decimal-exponent bookkeeping; every operation either completes fully or
//! fails without touching any state.
//!
//! `math` holds the checked fixed-point layer; `cortex` the ledger record,
//! its invariant and the emission schedule; `staking` the stake accounts and
//! their mutation; `resolve` and `claim` the two round protocols; `oracle`
//! the validation of permissionless price updates; `position` the decisions
//! of the position-opening flow.

pub mod claim;
pub mod cortex;
pub mod errors;
pub mod math;
pub mod oracle;
pub mod position;
pub mod resolve;
pub mod staking;
