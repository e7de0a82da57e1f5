use alarms_dispatcher::codec::dispatch_msg_bytes;
use alarms_dispatcher::codec::parse_dispatch_response;
use alarms_dispatcher::codec::parse_status_response;
use alarms_dispatcher::codec::status_query_bytes;
use alarms_dispatcher::codec::status_response_bytes;
use alarms_dispatcher::codec::unwrap_envelope;

#[test]
fn status_query_is_canonical_json() {
    assert_eq!(status_query_bytes(), b"{\"status\":{}}".to_vec());
}

#[test]
fn dispatch_msg_renders_the_count() {
    assert_eq!(
        dispatch_msg_bytes(32),
        b"{\"dispatch_alarms\":{\"max_count\":32}}".to_vec()
    );
    assert_eq!(
        dispatch_msg_bytes(0),
        b"{\"dispatch_alarms\":{\"max_count\":0}}".to_vec()
    );
    assert_eq!(
        dispatch_msg_bytes(4294967295),
        b"{\"dispatch_alarms\":{\"max_count\":4294967295}}".to_vec()
    );
}

#[test]
fn status_response_encodes_both_answers() {
    assert_eq!(
        status_response_bytes(true),
        b"{\"remaining_alarms\":true}".to_vec()
    );
    assert_eq!(
        status_response_bytes(false),
        b"{\"remaining_alarms\":false}".to_vec()
    );
}

#[test]
fn status_response_parses_exactly() {
    assert_eq!(parse_status_response(b"{\"remaining_alarms\":true}"), Some(true));
    assert_eq!(parse_status_response(b"{\"remaining_alarms\":false}"), Some(false));
    assert_eq!(parse_status_response(b"{\"remaining_alarms\":1}"), None);
    assert_eq!(parse_status_response(b""), None);
    assert_eq!(parse_status_response(b"{\"remaining_alarms\":true} "), None);
}

#[test]
fn dispatch_response_parses_exactly() {
    assert_eq!(parse_dispatch_response(b"{\"dispatched\":10}"), Some(10));
    assert_eq!(parse_dispatch_response(b"{\"dispatched\":0}"), Some(0));
    assert_eq!(
        parse_dispatch_response(b"{\"dispatched\":4294967295}"),
        Some(4294967295)
    );
    // Too large for the count's type.
    assert_eq!(parse_dispatch_response(b"{\"dispatched\":4294967296}"), None);
    // Non-canonical renderings are rejected.
    assert_eq!(parse_dispatch_response(b"{\"dispatched\":007}"), None);
    assert_eq!(parse_dispatch_response(b"{\"dispatched\": 7}"), None);
    assert_eq!(parse_dispatch_response(b"{\"dispatched\":7} "), None);
    assert_eq!(parse_dispatch_response(b"{\"dispatched\":}"), None);
    assert_eq!(parse_dispatch_response(b"{\"count\":7}"), None);
}

#[test]
fn envelope_round_trip_short_payload() {
    let payload = b"{\"dispatched\":3}".to_vec();
    let mut enveloped = vec![0x0Au8, payload.len() as u8];
    enveloped.extend_from_slice(&payload);
    assert_eq!(unwrap_envelope(&enveloped), Some(payload));
}

#[test]
fn envelope_two_byte_varint_length() {
    // A 200-byte payload: length 200 is 0xC8 0x01 as a varint.
    let payload = vec![7u8; 200];
    let mut enveloped = vec![0x0Au8, 0xC8, 0x01];
    enveloped.extend_from_slice(&payload);
    assert_eq!(unwrap_envelope(&enveloped), Some(payload));
}

#[test]
fn envelope_rejects_bad_frames() {
    // Wrong tag.
    assert_eq!(unwrap_envelope(&[0x12, 0x01, 0x41]), None);
    // Length does not match the remainder.
    assert_eq!(unwrap_envelope(&[0x0A, 0x02, 0x41]), None);
    assert_eq!(unwrap_envelope(&[0x0A, 0x00, 0x41]), None);
    // Truncated.
    assert_eq!(unwrap_envelope(&[0x0A]), None);
    assert_eq!(unwrap_envelope(&[]), None);
    // A non-minimal varint length is refused.
    assert_eq!(unwrap_envelope(&[0x0A, 0x81, 0x00, 0x41]), None);
}
