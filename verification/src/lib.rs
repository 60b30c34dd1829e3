//! A single-round, token-weighted proposal voting engine.
//!
//! Account holders fund a wallet, submit proposals, spend wallet tokens to
//! upvote proposals during one active round, and a privileged closer
//! finalizes the round by selecting a winner and computing a reward.
//! A small ticket-resale market lives beside it in its own module.

pub mod market;
pub mod voting;
