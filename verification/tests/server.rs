use kafka_wire::dispatch::{frame_message, handle_frame};
use kafka_wire::error::DecodeError;

/// A request frame (without the length prefix) with the given header
/// fields, an empty client id, an empty tag section, and the given body.
fn request_frame(api_key: i16, api_version: i16, correlation_id: i32, body: &[u8]) -> Vec<u8> {
    let mut frame = Vec::new();
    frame.extend(api_key.to_be_bytes());
    frame.extend(api_version.to_be_bytes());
    frame.extend(correlation_id.to_be_bytes());
    frame.extend(0i16.to_be_bytes()); // empty client id
    frame.push(0x00); // empty tag section
    frame.extend(body);
    frame
}

/// The expected ApiVersions v4 success payload for a correlation id.
fn api_versions_ok_payload(correlation_id: i32) -> Vec<u8> {
    let mut payload = Vec::new();
    payload.extend(correlation_id.to_be_bytes()); // v0 header
    payload.extend([0x00, 0x00]); // error code 0
    payload.push(0x03); // two entries, length biased by one
    payload.extend([0x00, 0x12, 0x00, 0x00, 0x00, 0x04, 0x00]); // ApiVersions 0..4
    payload.extend([0x00, 0x4B, 0x00, 0x00, 0x00, 0x00, 0x00]); // DescribeTopicPartitions 0..0
    payload.extend([0x00, 0x00, 0x00, 0x00]); // throttle
    payload.push(0x00); // tag section
    payload
}

#[test]
fn api_versions_v4_scenario() {
    // ApiVersions v4, correlation 7, empty client id; the body is ignored.
    let frame = request_frame(18, 4, 7, &[0x00, 0x00, 0x00, 0x00, 0x00, 0x00, 0x00, 0x00]);
    assert_eq!(frame.len(), 19);
    let payload = handle_frame(&frame).unwrap().unwrap();
    assert_eq!(payload, api_versions_ok_payload(7));
}

#[test]
fn api_versions_unsupported_version_scenario() {
    // ApiVersions v99, correlation 1: error code 35, empty table.
    let frame = request_frame(18, 99, 1, &[]);
    let payload = handle_frame(&frame).unwrap().unwrap();
    let mut expected = Vec::new();
    expected.extend([0x00, 0x00, 0x00, 0x01]); // correlation
    expected.extend([0x00, 0x23]); // error code 35
    expected.push(0x01); // empty table
    expected.extend([0x00, 0x00, 0x00, 0x00]); // throttle
    expected.push(0x00); // tag section
    assert_eq!(payload, expected);
}

#[test]
fn describe_topic_partitions_scenario() {
    // DescribeTopicPartitions v0 for topic "foo", correlation 42.
    let mut body = Vec::new();
    body.push(0x02); // one topic
    body.extend([0x04, b'f', b'o', b'o', 0x00]); // its name, its tags
    body.extend([0x00, 0x00, 0x00, 0x01]); // partition limit
    body.push(0xFF); // no cursor
    body.push(0x00); // tag section
    let frame = request_frame(75, 0, 42, &body);
    let payload = handle_frame(&frame).unwrap().unwrap();

    let mut expected = Vec::new();
    expected.extend([0x00, 0x00, 0x00, 0x2A, 0x00]); // v1 header
    expected.extend([0x00, 0x00, 0x00, 0x00]); // throttle
    expected.push(0x02); // one topic entry
    expected.extend([0x00, 0x03]); // unknown topic or partition
    expected.extend([0x04, b'f', b'o', b'o']); // the echoed name
    expected.extend(vec![0u8; 16]); // nil topic id
    expected.push(0x00); // not internal
    expected.push(0x01); // empty partitions
    expected.extend([0x00, 0x00, 0x00, 0x00]); // authorized operations
    expected.push(0x00); // entry tag section
    expected.push(0xFF); // no next cursor
    expected.push(0x00); // trailing tag section
    assert_eq!(payload, expected);
}

#[test]
fn unknown_api_key_gets_no_response() {
    // API key 99, correlation 5: the frame is consumed, nothing is sent.
    let frame = request_frame(99, 0, 5, &[1, 2, 3]);
    let out = handle_frame(&frame).unwrap();
    assert!(out.is_none());
}

#[test]
fn pipelined_requests_answered_in_order() {
    let first = request_frame(18, 4, 1, &[]);
    let second = request_frame(18, 4, 2, &[]);
    let p1 = handle_frame(&first).unwrap().unwrap();
    let p2 = handle_frame(&second).unwrap().unwrap();
    assert_eq!(&p1[0..4], &[0x00, 0x00, 0x00, 0x01]);
    assert_eq!(&p2[0..4], &[0x00, 0x00, 0x00, 0x02]);
    assert_eq!(p1, api_versions_ok_payload(1));
    assert_eq!(p2, api_versions_ok_payload(2));
}

#[test]
fn truncated_frame_is_a_codec_error() {
    // A frame whose length prefix promised 20 bytes of which only 10
    // arrived: parsing the partial frame fails and the connection drops.
    let full = request_frame(75, 0, 9, &[0x02, 0x04, b'f', b'o', b'o', 0x00, 0x00, 0x00, 0x00]);
    let partial = &full[0..10];
    let r = handle_frame(partial);
    assert_eq!(r.unwrap_err(), DecodeError::TruncatedInput);
}

#[test]
fn malformed_header_varint_is_rejected() {
    let mut frame = Vec::new();
    frame.extend([0x00, 0x12, 0x00, 0x04, 0x00, 0x00, 0x00, 0x01, 0x00, 0x00]);
    frame.extend([0x80, 0x80, 0x80, 0x80, 0x80, 0x80]); // tag count varint that never ends
    let r = handle_frame(&frame);
    assert_eq!(r.unwrap_err(), DecodeError::InvalidEncoding);
}

#[test]
fn frame_length_prefix_matches_payload() {
    let payload = vec![0xAA; 26];
    let framed = frame_message(&payload);
    assert_eq!(framed.len(), 30);
    assert_eq!(&framed[0..4], &[0x00, 0x00, 0x00, 26]);
    assert_eq!(&framed[4..], &payload[..]);
}
