//! Frame codec behaviour: round trips, delimiter handling, and the bit
//! constants shared with the wire protocol.
use mail_relay::frame::{
    decode_frame, encode_frame, ProtocolHeader, FLAG_OPTIMIZED, HEADER_LENGTH, STATUS_ERROR,
    STATUS_OK, STATUS_SIDEGRADE,
};
use simple_comms::protocol::flags::Flags;
use simple_comms::protocol::header::{EOL, HEADER_LENGTH as WIRE_HEADER_LENGTH};
use simple_comms::protocol::header::ProtocolHeader as WireHeader;
use simple_comms::protocol::message::ProtocolMessage;
use simple_comms::protocol::status::ProtocolStatus;

fn sample_header() -> ProtocolHeader {
    ProtocolHeader {
        version: 513,
        flags: FLAG_OPTIMIZED,
        payload_length: 5,
        reserved: 7,
        status: STATUS_OK,
        origin_address: [10, 0, 0, 1],
        encryption_key: [0xAB; 32],
    }
}

#[test]
fn frame_round_trip() {
    let header = sample_header();
    let payload = b"hello".to_vec();
    let encoded = encode_frame(&header, &payload);
    assert_eq!(encoded.len(), HEADER_LENGTH + payload.len() + 5);
    let (h, p) = decode_frame(&encoded).expect("frame should decode");
    assert_eq!(h.version, 513);
    assert_eq!(h.flags, FLAG_OPTIMIZED);
    assert_eq!(h.payload_length, 5);
    assert_eq!(h.reserved, 7);
    assert_eq!(h.status, STATUS_OK);
    assert_eq!(h.origin_address, [10, 0, 0, 1]);
    assert_eq!(h.encryption_key, [0xAB; 32]);
    assert_eq!(p, payload);
}

#[test]
fn frame_round_trip_empty_payload() {
    let header = sample_header();
    let encoded = encode_frame(&header, &[]);
    let (h, p) = decode_frame(&encoded).expect("frame should decode");
    assert_eq!(h.version, 513);
    assert!(p.is_empty());
}

#[test]
fn frame_round_trip_payload_containing_delimiter_bytes() {
    let header = sample_header();
    let payload = b"abc-EOL-def".to_vec();
    let encoded = encode_frame(&header, &payload);
    let (_, p) = decode_frame(&encoded).expect("frame should decode");
    assert_eq!(p, payload);
}

#[test]
fn frame_round_trip_largest_payload_length_field() {
    let mut header = sample_header();
    header.payload_length = u64::MAX;
    header.version = u16::MAX;
    let encoded = encode_frame(&header, b"x");
    let (h, _) = decode_frame(&encoded).expect("frame should decode");
    assert_eq!(h.payload_length, u64::MAX);
    assert_eq!(h.version, u16::MAX);
}

#[test]
fn decode_rejects_short_chunk() {
    assert!(decode_frame(b"too short").is_err());
    assert!(decode_frame(b"").is_err());
}

#[test]
fn decode_rejects_bare_delimiter() {
    // Nothing before the delimiter: no room for a header.
    assert!(decode_frame(b"-EOL-").is_err());
}

#[test]
fn decode_strips_at_last_delimiter() {
    let header = sample_header();
    let payload = b"tail-EOL-inside".to_vec();
    let encoded = encode_frame(&header, &payload);
    // The scan must pick the final delimiter, not the one inside the
    // payload, so the full payload survives.
    let (_, p) = decode_frame(&encoded).expect("frame should decode");
    assert_eq!(p, payload);
}

#[test]
fn constants_match_wire_protocol() {
    assert_eq!(FLAG_OPTIMIZED, Flags::OPTIMIZED.bits());
    assert_eq!(STATUS_OK, ProtocolStatus::OK.bits());
    assert_eq!(STATUS_ERROR, ProtocolStatus::ERROR.bits());
    assert_eq!(STATUS_SIDEGRADE, ProtocolStatus::SIDEGRADE.bits());
    assert_eq!(HEADER_LENGTH, WIRE_HEADER_LENGTH);
    assert_eq!(EOL, b"-EOL-");
}

#[test]
fn decodes_a_frame_built_by_the_wire_library() {
    let header = WireHeader {
        version: 300,
        flags: 0,
        payload_length: 0,
        reserved: 9,
        status: ProtocolStatus::OK.bits(),
        origin_address: [127, 0, 0, 1],
        encryption_key: [0; 32],
    };
    let mut message: ProtocolMessage<()> = ProtocolMessage { header, payload: () };
    let runtime = tokio::runtime::Builder::new_current_thread()
        .build()
        .expect("runtime should build");
    let mut bytes = runtime
        .block_on(message.to_bytes())
        .expect("serialization should succeed");
    bytes.extend_from_slice(EOL);
    let (h, p) = decode_frame(&bytes).expect("frame should decode");
    assert_eq!(h.version, 300);
    assert_eq!(h.flags, 0);
    assert_eq!(h.reserved, 9);
    assert_eq!(h.status, STATUS_OK);
    assert_eq!(h.origin_address, [127, 0, 0, 1]);
    // An empty unit payload is padded to one sixteen-byte block.
    assert_eq!(h.payload_length, 16);
    assert_eq!(p.len(), 16);
}
