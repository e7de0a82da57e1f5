//! Building the batch-execute transaction.
//!
//! A transaction requests up to `max_batch_size` units of work, carries no
//! funds, and pays a fixed tariff: fee amount and gas limit are both
//! `gas_limit_per_alarm × max_batch_size`, never estimated dynamically. It
//! is bound to the signer's current sequence; building never advances the
//! sequence — that is the caller's duty after commit confirmation.

use vstd::prelude::*;

use crate::account::Signer;
use crate::codec::dispatch_msg_bytes;
use crate::codec::dispatch_msg_spec;
use crate::config::AlarmTypeConfig;

verus! {

/// Everything a signed broadcast needs, as plain values: the execute
/// message bytes, the fee, and the signing coordinates. The funds list of
/// the execute message is empty.
#[derive(Debug)]
pub struct TxPlan {
    pub contract: String,
    pub msg: Vec<u8>,
    pub fee_amount: u64,
    pub fee_denom: String,
    pub gas_limit: u64,
    pub sequence: u64,
    pub account_number: u64,
    pub chain_id: String,
}

/// Composes the one batch-execute transaction of an engine attempt, bound
/// to the signer's current sequence. Reads the signer, never mutates it.
pub fn build_dispatch_tx(config: &AlarmTypeConfig, signer: &Signer) -> (r: TxPlan)
    requires
        config.valid(),
    ensures
        r.contract@ == config.contract@,
        r.msg@ == dispatch_msg_spec(config.max_batch_size),
        r.fee_amount == config.gas_limit_per_alarm * config.max_batch_size,
        r.gas_limit == config.gas_limit_per_alarm * config.max_batch_size,
        r.fee_denom@ == config.fee_denom@,
        r.sequence == signer.sequence,
        r.account_number == signer.account_number,
        r.chain_id@ == signer.chain_id@,
{
    let msg: Vec<u8> = dispatch_msg_bytes(config.max_batch_size);
    let fee: u64 = config.gas_limit_per_alarm * (config.max_batch_size as u64);
    TxPlan {
        contract: config.contract.as_str().to_owned(),
        msg,
        fee_amount: fee,
        fee_denom: config.fee_denom.as_str().to_owned(),
        gas_limit: fee,
        sequence: signer.current_sequence(),
        account_number: signer.account_number(),
        chain_id: signer.chain_id().to_owned(),
    }
}

} // verus!
