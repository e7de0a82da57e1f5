//! Dispatcher for a smart contract's deferred alarm queue.
//!
//! The crate models the dispatch engine itself: querying whether work
//! remains, building fee-bounded batch-execute transactions bound to the
//! signer's account sequence, decoding commit results, and deciding whether
//! to keep dispatching or stop.

pub mod account;
pub mod codec;
pub mod config;
pub mod engine;
pub mod error;
pub mod feeder;
pub mod osmosis;
pub mod outcome;
pub mod price;
pub mod tx;
