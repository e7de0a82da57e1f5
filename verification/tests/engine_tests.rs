use alarms_dispatcher::account::Signer;
use alarms_dispatcher::codec::status_response_bytes;
use alarms_dispatcher::config::AlarmTypeConfig;
use alarms_dispatcher::engine::Engine;
use alarms_dispatcher::error::Error;
use alarms_dispatcher::outcome::TxOutcome;

fn test_signer() -> Signer {
    Signer::new(
        "nolus1dispatcher".to_string(),
        "nolus-1".to_string(),
        7,
        100,
    )
}

fn test_config(max_batch: u32) -> AlarmTypeConfig {
    AlarmTypeConfig::try_new(
        "nolus1oracle".to_string(),
        max_batch,
        500,
        "unls".to_string(),
    )
    .unwrap()
}

fn outcome_with_count(n: u32) -> TxOutcome {
    let json = format!("{{\"dispatched\":{}}}", n).into_bytes();
    let mut data = vec![0x0Au8, json.len() as u8];
    data.extend_from_slice(&json);
    TxOutcome {
        code: 0,
        raw_log: String::new(),
        info: String::new(),
        gas_wanted: 5000,
        gas_used: 4000,
        data,
    }
}

/// Drives one engine pass against a simulated honest chain holding
/// `queue` units; returns the processed count of each broadcast and how
/// many status queries were issued.
fn run_pass(
    engine: &mut Engine,
    signer: &mut Signer,
    queue: &mut u32,
    batch: u32,
) -> (Vec<u32>, u32) {
    let mut counts = Vec::new();
    let mut queries: u32 = 0;
    while !engine.is_done() {
        let _query = engine.query_action();
        queries += 1;
        let body = status_response_bytes(*queue > 0);
        let plan = engine
            .on_query_response(signer, body.as_slice())
            .expect("status reply decodes");
        if let Some(plan) = plan {
            assert_eq!(plan.sequence, signer.current_sequence());
            let processed = if *queue < batch { *queue } else { batch };
            *queue -= processed;
            let out = outcome_with_count(processed);
            let got = engine.on_outcome(signer, &out);
            counts.push(got);
        }
    }
    (counts, queries)
}

#[test]
fn drains_queue_of_25_in_three_broadcasts() {
    let mut signer = test_signer();
    let mut engine = Engine::new(test_config(10));
    let mut queue: u32 = 25;
    let (counts, queries) = run_pass(&mut engine, &mut signer, &mut queue, 10);
    assert_eq!(counts, vec![10, 10, 5]);
    assert_eq!(queries, 3);
    assert_eq!(queue, 0);
    assert_eq!(signer.current_sequence(), 103);
}

#[test]
fn exact_multiple_ends_with_one_extra_query() {
    let mut signer = test_signer();
    let mut engine = Engine::new(test_config(10));
    let mut queue: u32 = 10;
    let (counts, queries) = run_pass(&mut engine, &mut signer, &mut queue, 10);
    // One full batch, then one extra query that reports no work left: the
    // accepted cost of treating a full batch as evidence of more work.
    assert_eq!(counts, vec![10]);
    assert_eq!(queries, 2);
    assert_eq!(queue, 0);
    assert_eq!(signer.current_sequence(), 101);
}

#[test]
fn no_work_means_zero_broadcasts() {
    let mut signer = test_signer();
    let mut engine = Engine::new(test_config(10));
    let mut queue: u32 = 0;
    let (counts, queries) = run_pass(&mut engine, &mut signer, &mut queue, 10);
    assert_eq!(counts, Vec::<u32>::new());
    assert_eq!(queries, 1);
    assert_eq!(signer.current_sequence(), 100);
    assert!(engine.is_done());
}

#[test]
fn sequence_advances_even_when_tx_fails_on_chain() {
    let mut signer = test_signer();
    let mut engine = Engine::new(test_config(10));
    let body = status_response_bytes(true);
    let plan = engine.on_query_response(&signer, body.as_slice()).unwrap();
    assert!(plan.is_some());
    let failed = TxOutcome {
        code: 11,
        raw_log: "out of gas".to_string(),
        info: String::new(),
        gas_wanted: 5000,
        gas_used: 5000,
        data: Vec::new(),
    };
    let processed = engine.on_outcome(&mut signer, &failed);
    assert_eq!(processed, 0);
    assert!(engine.is_done());
    assert_eq!(signer.current_sequence(), 101);
}

#[test]
fn sequence_untouched_on_transport_failure() {
    let signer = test_signer();
    let mut engine = Engine::new(test_config(10));
    let body = status_response_bytes(true);
    let plan = engine.on_query_response(&signer, body.as_slice()).unwrap();
    assert!(plan.is_some());
    // The broadcast never reached the chain: no outcome, no advance.
    engine.abort_pass();
    assert!(engine.is_done());
    assert_eq!(signer.current_sequence(), 100);
}

#[test]
fn full_batch_continues_partial_batch_stops() {
    let mut signer = test_signer();
    let mut engine = Engine::new(test_config(10));
    let body = status_response_bytes(true);
    engine.on_query_response(&signer, body.as_slice()).unwrap();
    let got = engine.on_outcome(&mut signer, &outcome_with_count(10));
    assert_eq!(got, 10);
    assert!(!engine.is_done());

    engine.on_query_response(&signer, body.as_slice()).unwrap();
    let got = engine.on_outcome(&mut signer, &outcome_with_count(9));
    assert_eq!(got, 9);
    assert!(engine.is_done());
}

#[test]
fn zero_count_stops() {
    let mut signer = test_signer();
    let mut engine = Engine::new(test_config(10));
    let body = status_response_bytes(true);
    engine.on_query_response(&signer, body.as_slice()).unwrap();
    let got = engine.on_outcome(&mut signer, &outcome_with_count(0));
    assert_eq!(got, 0);
    assert!(engine.is_done());
}

#[test]
fn malformed_payload_on_success_counts_zero_and_advances() {
    let mut signer = test_signer();
    let mut engine = Engine::new(test_config(10));
    let body = status_response_bytes(true);
    engine.on_query_response(&signer, body.as_slice()).unwrap();
    let garbled = TxOutcome {
        code: 0,
        raw_log: String::new(),
        info: String::new(),
        gas_wanted: 5000,
        gas_used: 4000,
        data: b"not an envelope".to_vec(),
    };
    let processed = engine.on_outcome(&mut signer, &garbled);
    assert_eq!(processed, 0);
    assert!(engine.is_done());
    assert_eq!(signer.current_sequence(), 101);
}

#[test]
fn undecodable_status_reply_is_fatal() {
    let mut signer = test_signer();
    let mut engine = Engine::new(test_config(10));
    let r = engine.on_query_response(&signer, b"{\"remaining_alarms\": maybe}");
    assert_eq!(r.unwrap_err(), Error::InvalidStatusResponse);
    assert!(engine.is_done());
    assert_eq!(signer.current_sequence(), 100);
}
