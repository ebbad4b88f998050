//! A deterministic betting pool: participants pay an escalating entry fee to
//! register a numeric guess, entry fees are split between a community pool and
//! a jackpot, and at settlement the bettors whose guess matches an external
//! token's total supply split the jackpot.
//!
//! The pool's accounting is pure: every operation takes the current chain
//! state (block info, attached funds, the oracle value) as plain values and
//! returns the new pool state together with the currency-transfer
//! instructions it declares. Host glue (storage, message encoding, the token
//! query) lives outside this crate.

pub mod contract;
pub mod error;
pub mod msg;
pub mod state;
pub mod types;
