//! An embedded-EVM simulation library: a journaled, checkpointable account
//! store with an optional remote-backed cache, a transaction runner that
//! delegates execution to the revm engine, and a stable projection of the
//! engine's outcomes.
//!
//! The heart of the crate is the journal-based checkpoint/revert protocol:
//! every mutation made while a checkpoint is outstanding is recorded with
//! the exact prior value it overwrote, and reverting to a held token
//! restores the ledger, entry by entry in reverse order, to the state it
//! had when the token was handed out. The laws of that protocol are stated
//! and proved in `laws`.

pub mod values;
pub mod errors;
pub mod hex;
pub mod account;
pub mod store;
pub mod checkpoint;
pub mod journal;
pub mod laws;
pub mod engine;
pub mod env;
pub mod result;
pub mod evm;
