//! Per-alarm-type configuration, immutable after load.

use vstd::prelude::*;

verus! {

/// What one alarm type's dispatching needs: the contract to drive, the
/// batch bound, the per-unit gas tariff, and the fee denomination.
pub struct AlarmTypeConfig {
    pub contract: String,
    pub max_batch_size: u32,
    pub gas_limit_per_alarm: u64,
    pub fee_denom: String,
}

impl AlarmTypeConfig {
    /// The batch bound is a positive integer, and the fee tariff times the
    /// batch bound — the fee and gas limit of every transaction built from
    /// this configuration — fits the fee's integer type.
    pub open spec fn valid(&self) -> bool {
        1 <= self.max_batch_size && self.gas_limit_per_alarm * self.max_batch_size <= u64::MAX
    }

    /// Validates and builds a configuration: `Some` exactly when the batch
    /// bound is positive and the fee computation cannot overflow.
    pub fn try_new(contract: String, max_batch_size: u32, gas_limit_per_alarm: u64, fee_denom: String) -> (r: Option<
        AlarmTypeConfig,
    >)
        ensures
            (r matches Some(c) ==> c.valid() && c.contract@ == contract@ && c.max_batch_size
                == max_batch_size && c.gas_limit_per_alarm == gas_limit_per_alarm && c.fee_denom@
                == fee_denom@),
            (r is None ==> !(1 <= max_batch_size && gas_limit_per_alarm * max_batch_size
                <= u64::MAX)),
    {
        if max_batch_size == 0 {
            return None;
        }
        if gas_limit_per_alarm > u64::MAX / (max_batch_size as u64) {
            proof {
                lemma_mul_fits(gas_limit_per_alarm as nat, max_batch_size as nat);
            }
            return None;
        }
        proof {
            lemma_mul_fits(gas_limit_per_alarm as nat, max_batch_size as nat);
        }
        Some(AlarmTypeConfig { contract, max_batch_size, gas_limit_per_alarm, fee_denom })
    }
}

/// `g * m` fits a `u64` exactly when `g` is at most `u64::MAX / m`.
proof fn lemma_mul_fits(g: nat, m: nat)
    requires
        1 <= m,
    ensures
        g * m <= u64::MAX <==> g <= (u64::MAX as nat) / m,
{
    let cap = u64::MAX as nat;
    let q = cap / m;
    vstd::arithmetic::div_mod::lemma_fundamental_div_mod(cap as int, m as int);
    vstd::arithmetic::div_mod::lemma_mod_bound(cap as int, m as int);
    assert(cap == m * q + cap % m);
    if g <= q {
        assert(g * m <= q * m) by (nonlinear_arith)
            requires
                g <= q,
                m >= 1,
        ;
        assert(q * m == m * q) by (nonlinear_arith);
    }
    if g > q {
        assert(g * m >= (q + 1) * m) by (nonlinear_arith)
            requires
                g >= q + 1,
                m >= 1,
        ;
        assert((q + 1) * m == m * q + m) by (nonlinear_arith);
    }
}

} // verus!
