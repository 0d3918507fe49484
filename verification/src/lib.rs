//! A simulator for the cross-chain relayer game.
//!
//! Participants submit claims about a remote chain, deposit bonds, may lie,
//! and are rewarded or slashed by configurable equations. Every amount is an
//! exact decimal number, so the ledger can be checked to balance to the last
//! digit.

pub mod text;
pub mod decimal;
pub mod error;
pub mod target;
pub mod challenge;
pub mod chain;
pub mod bond;
pub mod reward;
pub mod scenario;
pub mod simulation;
