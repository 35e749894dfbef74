use xkore_bridge::codec::{decode_at, encode, TAG_KEEPALIVE, TAG_TO_APP, TAG_TO_PEER};

#[test]
fn encode_produces_tag_and_little_endian_length() {
    let payload = vec![104u8, 101, 108, 108, 111];
    let wire = encode(TAG_TO_PEER, &payload);
    assert_eq!(wire, vec![83u8, 5, 0, 104, 101, 108, 108, 111]);
}

#[test]
fn encode_empty_payload_has_zero_length_field() {
    let wire = encode(TAG_KEEPALIVE, &Vec::new());
    assert_eq!(wire, vec![75u8, 0, 0]);
}

#[test]
fn round_trip_preserves_tag_and_payload() {
    let payload = vec![0u8, 255, 1, 2, 3];
    let wire = encode(TAG_TO_APP, &payload);
    let (tag, decoded, consumed) = decode_at(&wire, 0).expect("complete frame");
    assert_eq!(tag, TAG_TO_APP);
    assert_eq!(decoded, payload);
    assert_eq!(consumed, wire.len());
}

#[test]
fn round_trip_largest_payload() {
    let payload = vec![7u8; 0xFFFF];
    let wire = encode(TAG_TO_PEER, &payload);
    assert_eq!(wire[1], 0xFF);
    assert_eq!(wire[2], 0xFF);
    let (tag, decoded, consumed) = decode_at(&wire, 0).expect("complete frame");
    assert_eq!(tag, TAG_TO_PEER);
    assert_eq!(decoded, payload);
    assert_eq!(consumed, 3 + 0xFFFF);
}

#[test]
fn decode_needs_full_header() {
    assert!(decode_at(&vec![], 0).is_none());
    assert!(decode_at(&vec![82u8], 0).is_none());
    assert!(decode_at(&vec![82u8, 5], 0).is_none());
}

#[test]
fn decode_waits_for_declared_payload() {
    // Header says 5 payload bytes; only 2 have arrived.
    let partial = vec![82u8, 5, 0, 104, 101];
    assert!(decode_at(&partial, 0).is_none());
}

#[test]
fn decode_at_offset_finds_second_frame() {
    let mut wire = encode(TAG_TO_APP, &vec![1u8, 2]);
    let second = encode(TAG_TO_PEER, &vec![9u8]);
    wire.extend_from_slice(&second);
    let (_, _, consumed) = decode_at(&wire, 0).expect("first frame");
    let (tag, payload, consumed2) = decode_at(&wire, consumed).expect("second frame");
    assert_eq!(tag, TAG_TO_PEER);
    assert_eq!(payload, vec![9u8]);
    assert_eq!(consumed2, 4);
}

#[test]
fn decode_unknown_tag_structurally() {
    // An unrecognized tag still decodes, so the stream stays aligned.
    let wire = vec![88u8, 2, 0, 10, 20];
    let (tag, payload, consumed) = decode_at(&wire, 0).expect("structurally complete");
    assert_eq!(tag, 88);
    assert_eq!(payload, vec![10u8, 20]);
    assert_eq!(consumed, 5);
}
