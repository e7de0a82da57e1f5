//! The alarm dispatch engine: the per-alarm-type state machine.
//!
//! One pass runs `Querying → Broadcasting → … → Done`: query whether work
//! remains; if none, stop; else build and sign one batch-execute
//! transaction, broadcast it, observe its commit outcome, decode the
//! processed count, and loop back to the query exactly when a full batch
//! was processed — a full batch is evidence the queue was not exhausted,
//! a partial one (including zero) is evidence that it now is.
//!
//! The engine decides; it performs no I/O. The caller executes each
//! action — the query, the signing and broadcast, the sleep between
//! passes — and feeds the observed result back in.

use vstd::prelude::*;

use crate::account::Signer;
use crate::codec::status_query_bytes;
use crate::codec::status_query_spec;
use crate::codec::status_response_spec;
use crate::config::AlarmTypeConfig;
use crate::error::Error;
use crate::outcome::tx_response;
use crate::outcome::wraps_count;
use crate::outcome::TxOutcome;
use crate::tx::build_dispatch_tx;
use crate::tx::TxPlan;

verus! {

/// Where one engine pass stands.
#[derive(Clone, Copy, PartialEq, Eq, Structural, Debug)]
pub enum Phase {
    /// The next action is the status query.
    Querying,
    /// A transaction was handed out; the next event is its commit outcome.
    Broadcasting,
    /// The pass is over; control returns to the scheduler.
    Done,
}

/// One alarm type's dispatch engine.
pub struct Engine {
    pub config: AlarmTypeConfig,
    pub phase: Phase,
}

impl Engine {
    /// A fresh pass, about to ask the contract whether work remains.
    pub fn new(config: AlarmTypeConfig) -> (r: Engine)
        requires
            config.valid(),
        ensures
            r.phase == Phase::Querying,
            r.config == config,
    {
        Engine { config, phase: Phase::Querying }
    }

    pub fn is_done(&self) -> (r: bool)
        ensures
            r == (self.phase == Phase::Done),
    {
        self.phase == Phase::Done
    }

    /// The query to send to `self.config.contract` while `Querying`.
    pub fn query_action(&self) -> (r: Vec<u8>)
        requires
            self.phase == Phase::Querying,
        ensures
            r@ == status_query_spec(),
    {
        status_query_bytes()
    }

    /// Consumes the status reply: decides, and builds if work remains.
    ///
    /// A reply saying no work remains ends the pass with no broadcast. A
    /// reply saying work remains yields the one transaction of this
    /// attempt, bound to the signer's current sequence; the signer is only
    /// read. A reply that does not decode is fatal to the pass.
    pub fn on_query_response(&mut self, signer: &Signer, body: &[u8]) -> (r: Result<
        Option<TxPlan>,
        Error,
    >)
        requires
            old(self).phase == Phase::Querying,
            old(self).config.valid(),
        ensures
            final(self).config == old(self).config,
            (forall|b: bool| body@ != status_response_spec(b)) ==> (r matches Err(e) && e
                == Error::InvalidStatusResponse && final(self).phase == Phase::Done),
            body@ == status_response_spec(false) ==> (r matches Ok(o) && o is None && final(self).phase == Phase::Done),
            body@ == status_response_spec(true) ==> (r matches Ok(o) && o matches Some(plan)
                && final(self).phase == Phase::Broadcasting && plan.contract@ == old(self).config.contract@ && plan.msg@ == crate::codec::dispatch_msg_spec(old(self).config.max_batch_size) && plan.fee_amount == old(self).config.gas_limit_per_alarm * old(self).config.max_batch_size && plan.gas_limit == plan.fee_amount && plan.fee_denom@ == old(self).config.fee_denom@ && plan.sequence == signer.sequence && plan.account_number
                == signer.account_number && plan.chain_id@ == signer.chain_id@),
    {
        match crate::codec::parse_status_response(body) {
            Option::None => {
                self.phase = Phase::Done;
                Err(Error::InvalidStatusResponse)
            },
            Option::Some(false) => {
                self.phase = Phase::Done;
                proof {
                    assert(status_response_spec(false).len() != status_response_spec(true).len());
                }
                Ok(None)
            },
            Option::Some(true) => {
                let plan = build_dispatch_tx(&self.config, signer);
                self.phase = Phase::Broadcasting;
                proof {
                    assert(status_response_spec(false).len() != status_response_spec(true).len());
                }
                Ok(Some(plan))
            },
        }
    }

    /// A transport failure: the pass aborts. No commit outcome was
    /// observed, so no sequence advance happens — this takes no signer.
    pub fn abort_pass(&mut self)
        ensures
            final(self).config == old(self).config,
            final(self).phase == Phase::Done,
    {
        self.phase = Phase::Done;
    }

    /// Consumes the commit outcome of the broadcast transaction: advances
    /// the sequence, decodes the processed count, and decides whether to
    /// loop.
    ///
    /// The sequence advances exactly once whatever the outcome says — it
    /// was consumed on-chain the moment the transaction was included. A
    /// non-zero status code, or a payload that does not decode, counts as
    /// zero processed units. The pass continues (loops back to the query)
    /// exactly when the count equals the batch bound.
    pub fn on_outcome(&mut self, signer: &mut Signer, outcome: &TxOutcome) -> (r: u32)
        requires
            old(self).phase == Phase::Broadcasting,
            old(self).config.valid(),
            old(signer).sequence < u64::MAX,
        ensures
            final(self).config == old(self).config,
            final(signer).sequence == old(signer).sequence + 1,
            final(signer).address@ == old(signer).address@,
            final(signer).chain_id@ == old(signer).chain_id@,
            final(signer).account_number == old(signer).account_number,
            !outcome.is_success() ==> r == 0,
            (outcome.is_success() && (forall|n: u32| !wraps_count(outcome.data@, n))) ==> r == 0,
            forall|n: u32| (outcome.is_success() && wraps_count(outcome.data@, n)) ==> r == n,
            final(self).phase == (if r == old(self).config.max_batch_size {
                Phase::Querying
            } else {
                Phase::Done
            }),
    {
        signer.tx_confirmed();
        let processed: u32 = match tx_response(outcome) {
            Option::Some(d) => d.dispatched_alarms(),
            Option::None => 0,
        };
        if processed == self.config.max_batch_size {
            self.phase = Phase::Querying;
        } else {
            self.phase = Phase::Done;
        }
        processed
    }
}

/// One broadcast against a queue of `queue` units processes
/// `min(batch, queue)` of them.
pub open spec fn batch_processed(queue: nat, batch: nat) -> nat {
    if batch <= queue {
        batch
    } else {
        queue
    }
}

/// The processed counts reported by the successive broadcasts of one
/// engine pass against an honest chain holding `queue` units of work: full
/// batches while at least `batch` remain, then the partial remainder, and
/// no broadcast at all once nothing remains.
pub open spec fn pass_counts(queue: nat, batch: nat) -> Seq<nat>
    decreases queue,
{
    if batch == 0 || queue == 0 {
        Seq::empty()
    } else if queue < batch {
        seq![queue]
    } else {
        seq![batch] + pass_counts((queue - batch) as nat, batch)
    }
}

pub open spec fn seq_sum(s: Seq<nat>) -> nat
    decreases s.len(),
{
    if s.len() == 0 {
        0
    } else {
        s[0] + seq_sum(s.drop_first())
    }
}

/// Law: against a queue of `queue` units and a batch bound `batch`, with
/// no on-chain failures, one engine pass's broadcasts dispatch every unit.
/// Their counts sum to `queue` — which, with `k` the number of broadcasts,
/// equals `min(queue, k·batch)` since `queue <= k·batch` — every broadcast
/// but the last processes a full batch, the pass issues no broadcast when
/// no work remains, and it never issues a broadcast once fewer than one
/// full batch's worth of evidence calls for it: `(k-1)·batch < queue`.
pub proof fn lemma_pass_dispatches_all(queue: nat, batch: nat)
    requires
        batch >= 1,
    ensures
        seq_sum(pass_counts(queue, batch)) == queue,
        queue <= pass_counts(queue, batch).len() * batch,
        queue == 0 ==> pass_counts(queue, batch).len() == 0,
        queue > 0 ==> pass_counts(queue, batch).len() >= 1 && (pass_counts(queue, batch).len() - 1)
            * batch < queue,
        forall|i: int|
            0 <= i < pass_counts(queue, batch).len() ==> #[trigger] pass_counts(queue, batch)[i]
                == batch_processed((queue - i * batch) as nat, batch),
        forall|i: int|
            0 <= i < pass_counts(queue, batch).len() - 1 ==> #[trigger] pass_counts(queue, batch)[i]
                == batch,
    decreases queue,
{
    let counts = pass_counts(queue, batch);
    if queue == 0 {
        assert(seq_sum(counts) == 0);
    } else if queue < batch {
        assert(counts =~= seq![queue]);
        assert(counts.drop_first() =~= Seq::<nat>::empty());
        assert(seq_sum(Seq::<nat>::empty()) == 0);
        assert(seq_sum(counts) == queue);
        assert(queue <= 1 * batch);
    } else {
        let rest = pass_counts((queue - batch) as nat, batch);
        lemma_pass_dispatches_all((queue - batch) as nat, batch);
        assert(counts.drop_first() =~= rest);
        assert(counts[0] == batch);
        assert(seq_sum(counts) == batch + seq_sum(rest));
        let k = counts.len();
        assert(k == rest.len() + 1);
        assert(k * batch == batch + rest.len() * batch) by (nonlinear_arith)
            requires
                k == rest.len() + 1,
        ;
        if queue - batch > 0 {
            assert((k - 1) * batch == batch + (rest.len() - 1) * batch) by (nonlinear_arith)
                requires
                    k == rest.len() + 1,
                    rest.len() >= 1,
            ;
        }
        assert forall|i: int| 0 <= i < k implies #[trigger] counts[i] == batch_processed(
            (queue - i * batch) as nat,
            batch,
        ) by {
            if i == 0 {
                assert(counts[0] == batch);
            } else {
                assert(counts[i] == rest[i - 1]);
                assert(rest[i - 1] == batch_processed(
                    ((queue - batch) - (i - 1) * batch) as nat,
                    batch,
                ));
                assert((queue - batch) - (i - 1) * batch == queue - i * batch) by (nonlinear_arith);
            }
        }
        assert forall|i: int| 0 <= i < k - 1 implies #[trigger] counts[i] == batch by {
            if i > 0 {
                assert(counts[i] == rest[i - 1]);
            }
        }
    }
}


/// The scheduler's bound on consecutive fatal errors: reset by any
/// successful round, advanced by any fatal one, and exhausted — stopping
/// the process — once more consecutive rounds have failed than the
/// configured budget allows.
pub struct RetryBudget {
    pub max_consequent_errors: u32,
    pub consequent_errors: u32,
}

impl RetryBudget {
    pub fn new(max_consequent_errors: u32) -> (r: RetryBudget)
        ensures
            r.max_consequent_errors == max_consequent_errors,
            r.consequent_errors == 0,
    {
        RetryBudget { max_consequent_errors, consequent_errors: 0 }
    }

    /// A round succeeded: the error run is over.
    pub fn on_success(&mut self)
        ensures
            final(self).max_consequent_errors == old(self).max_consequent_errors,
            final(self).consequent_errors == 0,
    {
        self.consequent_errors = 0;
    }

    /// A round failed: count it, and say whether the budget is exhausted —
    /// exactly when the failure run now exceeds the bound.
    pub fn on_failure(&mut self) -> (exhausted: bool)
        requires
            old(self).consequent_errors < u32::MAX,
        ensures
            final(self).max_consequent_errors == old(self).max_consequent_errors,
            final(self).consequent_errors == old(self).consequent_errors + 1,
            exhausted == (old(self).consequent_errors + 1 > old(self).max_consequent_errors),
    {
        self.consequent_errors = self.consequent_errors + 1;
        self.consequent_errors > self.max_consequent_errors
    }
}

} // verus!
