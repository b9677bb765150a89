//! Connection handling: upgrade negotiation, malformed payloads, and
//! accepted frames, each observed through the serialized response.
use mail_relay::email::Email;
use mail_relay::frame::{
    decode_frame, encode_frame, ProtocolHeader, FLAG_OPTIMIZED, STATUS_ERROR, STATUS_OK,
    STATUS_SIDEGRADE,
};
use mail_relay::handler::{handle_frame, process_frame};
use mail_relay::lifecycle::ServiceState;
use mail_relay::queue::MailQueue;

fn request_header(flags: u8) -> ProtocolHeader {
    ProtocolHeader {
        version: 1,
        flags,
        payload_length: 0,
        reserved: 0,
        status: 0,
        origin_address: [127, 0, 0, 1],
        encryption_key: [0; 32],
    }
}

fn fresh_state() -> ServiceState {
    ServiceState {
        event_counter: 0,
        is_active: true,
        data: String::from("Running"),
        last_updated: 0,
    }
}

#[test]
fn upgrade_negotiation_yields_sidegrade() {
    let mut queue = MailQueue::new();
    let mut state = fresh_state();
    let raw = encode_frame(&request_header(0), b"{\"subject\":\"s\",\"body\":\"b\"}");
    let resp = handle_frame(&mut queue, &mut state, &raw, 50);
    let (h, p) = decode_frame(&resp).expect("response should decode");
    assert_eq!(h.status, STATUS_SIDEGRADE);
    assert_eq!(h.reserved, FLAG_OPTIMIZED);
    assert!(p.is_empty());
    assert_eq!(queue.len(), 0);
    assert_eq!(state.event_counter, 1);
}

#[test]
fn upgrade_negotiation_on_partial_flags() {
    // Some of the required bits, but not all: still an upgrade request.
    let mut queue = MailQueue::new();
    let mut state = fresh_state();
    let raw = encode_frame(&request_header(0x03), b"{\"subject\":\"s\",\"body\":\"b\"}");
    let resp = handle_frame(&mut queue, &mut state, &raw, 50);
    let (h, _) = decode_frame(&resp).expect("response should decode");
    assert_eq!(h.status, STATUS_SIDEGRADE);
    assert_eq!(h.reserved, FLAG_OPTIMIZED);
    assert_eq!(queue.len(), 0);
}

#[test]
fn malformed_payload_yields_error() {
    let mut queue = MailQueue::new();
    let mut state = fresh_state();
    let raw = encode_frame(&request_header(FLAG_OPTIMIZED), b"this is not json");
    let resp = handle_frame(&mut queue, &mut state, &raw, 50);
    let (h, _) = decode_frame(&resp).expect("response should decode");
    assert_eq!(h.status, STATUS_ERROR);
    assert_eq!(queue.len(), 0);
    assert_eq!(state.event_counter, 1);
}

#[test]
fn payload_missing_body_yields_error() {
    let mut queue = MailQueue::new();
    let mut state = fresh_state();
    let raw = encode_frame(&request_header(FLAG_OPTIMIZED), b"{\"subject\":\"only\"}");
    let resp = handle_frame(&mut queue, &mut state, &raw, 50);
    let (h, _) = decode_frame(&resp).expect("response should decode");
    assert_eq!(h.status, STATUS_ERROR);
    assert_eq!(queue.len(), 0);
}

#[test]
fn accepted_frame_enqueues_and_replies_ok() {
    let mut queue = MailQueue::new();
    let mut state = fresh_state();
    let raw = encode_frame(
        &request_header(FLAG_OPTIMIZED),
        b"{\"subject\":\"greetings\",\"body\":\"hello there\"}",
    );
    let resp = handle_frame(&mut queue, &mut state, &raw, 77);
    let (h, p) = decode_frame(&resp).expect("response should decode");
    assert_eq!(h.status, STATUS_OK);
    assert!(p.is_empty());
    assert_eq!(queue.len(), 1);
    let entry = queue.get(0);
    assert_eq!(entry.email.subject, "greetings");
    assert_eq!(entry.email.body, "hello there");
    assert_eq!(entry.received_at, 77);
    assert_eq!(state.event_counter, 1);
}

#[test]
fn unparsable_chunk_yields_error() {
    let mut queue = MailQueue::new();
    let mut state = fresh_state();
    let resp = handle_frame(&mut queue, &mut state, b"garbage", 50);
    let (h, _) = decode_frame(&resp).expect("response should decode");
    assert_eq!(h.status, STATUS_ERROR);
    assert_eq!(queue.len(), 0);
    assert_eq!(state.event_counter, 1);
}

#[test]
fn every_branch_counts_an_event() {
    let mut queue = MailQueue::new();
    let mut state = fresh_state();
    let ok_frame = encode_frame(
        &request_header(FLAG_OPTIMIZED),
        b"{\"subject\":\"a\",\"body\":\"b\"}",
    );
    let bad_payload = encode_frame(&request_header(FLAG_OPTIMIZED), b"nope");
    let wrong_flags = encode_frame(&request_header(0), b"{}");
    handle_frame(&mut queue, &mut state, &ok_frame, 1);
    handle_frame(&mut queue, &mut state, &bad_payload, 2);
    handle_frame(&mut queue, &mut state, &wrong_flags, 3);
    handle_frame(&mut queue, &mut state, b"junk", 4);
    assert_eq!(state.event_counter, 4);
    assert_eq!(state.last_updated, 4);
    assert_eq!(queue.len(), 1);
}

#[test]
fn process_frame_with_decoded_email() {
    let mut queue = MailQueue::new();
    let mut state = fresh_state();
    let header = request_header(FLAG_OPTIMIZED);
    let email = Email::new(String::from("s"), String::from("b"));
    let resp = process_frame(&mut queue, &mut state, &header, Some(email), 9);
    assert_eq!(resp.status, STATUS_OK);
    assert_eq!(queue.len(), 1);
    assert_eq!(queue.get(0).received_at, 9);
}

#[test]
fn process_frame_without_decoded_email() {
    let mut queue = MailQueue::new();
    let mut state = fresh_state();
    let header = request_header(FLAG_OPTIMIZED);
    let resp = process_frame(&mut queue, &mut state, &header, None, 9);
    assert_eq!(resp.status, STATUS_ERROR);
    assert_eq!(queue.len(), 0);
}
