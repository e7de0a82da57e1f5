//! The dispatcher's error taxonomy.
//!
//! Transport failures and node-reported RPC failures are fatal to an engine
//! pass and propagate. On-chain execution failure and a malformed reply
//! payload are business outcomes: they are contained within one pass and
//! never surface as an `Error`.

use vstd::prelude::*;

verus! {

/// A fatal failure of one engine pass.
#[derive(Clone, Copy, PartialEq, Eq, Structural, Debug)]
pub enum Error {
    /// Connection or timeout failure against the chain node: no RPC outcome
    /// was observed.
    Transport,
    /// The node processed the RPC but reports that it failed (contract not
    /// found, query rejected).
    Remote,
    /// The contract's status reply did not decode: the pass cannot learn
    /// whether work remains.
    InvalidStatusResponse,
}

} // verus!
