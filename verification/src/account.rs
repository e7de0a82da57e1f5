//! Signing identity of the dispatcher's account.
//!
//! The chain orders and de-duplicates signed transactions from one account
//! by a monotonically increasing sequence number. The dispatcher owns a
//! single such counter: it is advanced exactly once per observed commit
//! outcome, never before a broadcast and never twice for one transaction.

use vstd::prelude::*;

verus! {

/// The dispatcher's account identity: immutable address, chain id and
/// account number, plus the mutable sequence counter.
pub struct Signer {
    pub address: String,
    pub chain_id: String,
    pub account_number: u64,
    pub sequence: u64,
}

impl Signer {
    /// A fresh identity whose sequence starts at the value the chain
    /// reported for the account.
    pub fn new(address: String, chain_id: String, account_number: u64, sequence: u64) -> (r: Signer)
        ensures
            r.address@ == address@,
            r.chain_id@ == chain_id@,
            r.account_number == account_number,
            r.sequence == sequence,
    {
        Signer { address, chain_id, account_number, sequence }
    }

    pub fn address(&self) -> (r: &str)
        ensures
            r@ == self.address@,
    {
        self.address.as_str()
    }

    pub fn chain_id(&self) -> (r: &str)
        ensures
            r@ == self.chain_id@,
    {
        self.chain_id.as_str()
    }

    pub fn account_number(&self) -> (r: u64)
        ensures
            r == self.account_number,
    {
        self.account_number
    }

    /// The sequence the next transaction must be bound to.
    pub fn current_sequence(&self) -> (r: u64)
        ensures
            r == self.sequence,
    {
        self.sequence
    }

    /// Called exactly once after a broadcast's commit outcome has been
    /// observed: the sequence was consumed on-chain the moment the
    /// transaction was included, whatever its execution status.
    pub fn tx_confirmed(&mut self)
        requires
            old(self).sequence < u64::MAX,
        ensures
            final(self).sequence == old(self).sequence + 1,
            final(self).address@ == old(self).address@,
            final(self).chain_id@ == old(self).chain_id@,
            final(self).account_number == old(self).account_number,
    {
        self.sequence = self.sequence + 1;
    }
}

} // verus!
