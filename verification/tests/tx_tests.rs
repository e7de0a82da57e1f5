use alarms_dispatcher::account::Signer;
use alarms_dispatcher::config::AlarmTypeConfig;
use alarms_dispatcher::outcome::tx_response;
use alarms_dispatcher::outcome::TxOutcome;
use alarms_dispatcher::tx::build_dispatch_tx;

#[test]
fn sequence_counter_advances_by_one() {
    let mut signer = Signer::new("addr".to_string(), "chain".to_string(), 1, 41);
    assert_eq!(signer.current_sequence(), 41);
    signer.tx_confirmed();
    assert_eq!(signer.current_sequence(), 42);
    assert_eq!(signer.account_number(), 1);
    assert_eq!(signer.address(), "addr");
    assert_eq!(signer.chain_id(), "chain");
}

#[test]
fn config_rejects_zero_batch_and_fee_overflow() {
    assert!(AlarmTypeConfig::try_new("c".to_string(), 0, 500, "unls".to_string()).is_none());
    assert!(AlarmTypeConfig::try_new("c".to_string(), 4, u64::MAX, "unls".to_string()).is_none());
    let cfg = AlarmTypeConfig::try_new("c".to_string(), 32, 500, "unls".to_string()).unwrap();
    assert_eq!(cfg.max_batch_size, 32);
}

#[test]
fn tx_is_bound_to_sequence_with_tariff_fee() {
    let signer = Signer::new("addr".to_string(), "nolus-1".to_string(), 9, 55);
    let cfg = AlarmTypeConfig::try_new("nolus1oracle".to_string(), 32, 500, "unls".to_string())
        .unwrap();
    let plan = build_dispatch_tx(&cfg, &signer);
    assert_eq!(plan.contract, "nolus1oracle");
    assert_eq!(plan.msg, b"{\"dispatch_alarms\":{\"max_count\":32}}".to_vec());
    assert_eq!(plan.fee_amount, 16000);
    assert_eq!(plan.gas_limit, 16000);
    assert_eq!(plan.fee_denom, "unls");
    assert_eq!(plan.sequence, 55);
    assert_eq!(plan.account_number, 9);
    assert_eq!(plan.chain_id, "nolus-1");
    // Building must not advance the sequence.
    assert_eq!(signer.current_sequence(), 55);
}

fn enveloped(json: &[u8]) -> Vec<u8> {
    let mut data = vec![0x0Au8, json.len() as u8];
    data.extend_from_slice(json);
    data
}

#[test]
fn tx_response_decodes_successful_outcome() {
    let out = TxOutcome {
        code: 0,
        raw_log: String::new(),
        info: String::new(),
        gas_wanted: 100,
        gas_used: 90,
        data: enveloped(b"{\"dispatched\":17}"),
    };
    assert_eq!(tx_response(&out).unwrap().dispatched_alarms(), 17);
}

#[test]
fn tx_response_skips_failed_outcome() {
    // A valid payload under a failure code is not even decoded.
    let out = TxOutcome {
        code: 5,
        raw_log: "insufficient funds".to_string(),
        info: String::new(),
        gas_wanted: 100,
        gas_used: 100,
        data: enveloped(b"{\"dispatched\":17}"),
    };
    assert!(tx_response(&out).is_none());
}

#[test]
fn tx_response_tolerates_malformed_payload() {
    let out = TxOutcome {
        code: 0,
        raw_log: String::new(),
        info: String::new(),
        gas_wanted: 100,
        gas_used: 90,
        data: enveloped(b"{\"dispatched\":oops}"),
    };
    assert!(tx_response(&out).is_none());
    let bare = TxOutcome {
        code: 0,
        raw_log: String::new(),
        info: String::new(),
        gas_wanted: 100,
        gas_used: 90,
        data: b"{\"dispatched\":17}".to_vec(),
    };
    assert!(tx_response(&bare).is_none());
}
