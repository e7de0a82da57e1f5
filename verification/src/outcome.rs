//! The commit outcome of one broadcast, and the decoding of its payload.
//!
//! A `TxOutcome` is a successful RPC outcome even when the transaction
//! itself failed on-chain: a non-zero status code carries ledger-level
//! failure information and must not be confused with a transport failure.

use vstd::prelude::*;

use crate::codec::dispatch_response_spec;
use crate::codec::envelope_spec;
use crate::codec::parse_dispatch_response;
use crate::codec::unwrap_envelope;

verus! {

/// What one broadcast-and-confirm call reports: the on-chain status code
/// (zero meaning success), human-readable detail for failures, gas
/// metrics, and the raw response payload bytes.
pub struct TxOutcome {
    pub code: u32,
    pub raw_log: String,
    pub info: String,
    pub gas_wanted: u64,
    pub gas_used: u64,
    pub data: Vec<u8>,
}

impl TxOutcome {
    /// A zero status code: the transaction's execution succeeded on-chain.
    pub open spec fn is_success(&self) -> bool {
        self.code == 0
    }
}

/// The decoded execute reply: how many units the transaction processed.
pub struct DispatchResponse {
    pub dispatched: u32,
}

impl DispatchResponse {
    pub fn dispatched_alarms(&self) -> (r: u32)
        ensures
            r == self.dispatched,
    {
        self.dispatched
    }
}

/// `data` is the envelope-wrapped execute reply declaring `n` processed
/// units.
pub open spec fn wraps_count(data: Seq<u8>, n: u32) -> bool {
    data == envelope_spec(dispatch_response_spec(n as nat))
}

/// Decodes a commit outcome into the processed count.
///
/// On a success status the payload is unwrapped from its envelope and
/// deserialized; either failure is recoverable and yields `None` — the
/// transaction's side effects already happened on-chain, only the
/// dispatcher's bookkeeping is degraded. On a non-zero status the payload
/// is not touched.
pub fn tx_response(outcome: &TxOutcome) -> (r: Option<DispatchResponse>)
    ensures
        (r matches Some(d) ==> outcome.is_success() && wraps_count(outcome.data@, d.dispatched)),
        forall|n: u32|
            (outcome.is_success() && wraps_count(outcome.data@, n)) ==> (r matches Some(d)
                && d.dispatched == n),
{
    if outcome.code != 0 {
        return None;
    }
    match unwrap_envelope(outcome.data.as_slice()) {
        Option::None => None,
        Option::Some(payload) => match parse_dispatch_response(payload.as_slice()) {
            Option::None => None,
            Option::Some(n) => Some(DispatchResponse { dispatched: n }),
        },
    }
}

} // verus!
