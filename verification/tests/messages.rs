use kafka_wire::cluster_metadata::TopicRecord;
use kafka_wire::describe_topic_partitions::{
    Cursor, DescribeTopicPartitionsRequest, Partition, TopicRequest, TopicResponse,
};
use kafka_wire::error::DecodeError;
use kafka_wire::header::{
    RequestHeader, ResponseHeader, ResponseHeaderV0, ResponseHeaderV1,
};
use kafka_wire::primitive::{CompactString, Encode, Serializable, TagSection};

#[test]
fn request_header_decode() {
    // api_key 18, api_version 4, correlation 7, client id "kk", empty tags,
    // then a two-byte body.
    let bytes = vec![
        0x00, 0x12, 0x00, 0x04, 0x00, 0x00, 0x00, 0x07, 0x00, 0x02, b'k', b'k', 0x00, 0xAA, 0xBB,
    ];
    let (header, body) = RequestHeader::deserialize(&bytes).unwrap();
    assert_eq!(header.request_api_key, 18);
    assert_eq!(header.request_api_version, 4);
    assert_eq!(header.correlation_id, 7);
    assert_eq!(header.client_id, Some(b"kk".to_vec()));
    assert!(header.tag_buffer.0.is_none());
    assert_eq!(body, &[0xAA, 0xBB]);
}

#[test]
fn request_header_null_and_empty_client_id() {
    // Length -1 means a null client id.
    let bytes = vec![0x00, 0x12, 0x00, 0x04, 0x00, 0x00, 0x00, 0x07, 0xFF, 0xFF, 0x00];
    let (header, _) = RequestHeader::deserialize(&bytes).unwrap();
    assert!(header.client_id.is_none());
    // Length 0 means an empty one.
    let bytes = vec![0x00, 0x12, 0x00, 0x04, 0x00, 0x00, 0x00, 0x07, 0x00, 0x00, 0x00];
    let (header, _) = RequestHeader::deserialize(&bytes).unwrap();
    assert_eq!(header.client_id, Some(Vec::new()));
}

#[test]
fn request_header_truncated() {
    let r = RequestHeader::deserialize(&[0x00, 0x12, 0x00]);
    assert_eq!(r.unwrap_err(), DecodeError::TruncatedInput);
}

#[test]
fn response_header_forms() {
    let v0 = ResponseHeader::V0(ResponseHeaderV0 { correlation_id: 7 });
    assert_eq!(v0.serialize(), vec![0x00, 0x00, 0x00, 0x07]);
    let v1 = ResponseHeader::V1(ResponseHeaderV1 {
        correlation_id: 42,
        tag_buffer: TagSection(None),
    });
    assert_eq!(v1.serialize(), vec![0x00, 0x00, 0x00, 0x2A, 0x00]);
}

#[test]
fn topic_request_round_trip() {
    let req = TopicRequest {
        name: CompactString(Some(b"foo".to_vec())),
        tag_buffer: TagSection(None),
    };
    let bytes = req.serialize();
    assert_eq!(bytes, vec![0x04, b'f', b'o', b'o', 0x00]);
    let (decoded, rest) = TopicRequest::deserialize(&bytes).unwrap();
    assert_eq!(decoded.name.0, Some(b"foo".to_vec()));
    assert!(rest.is_empty());
}

#[test]
fn partition_round_trip() {
    let p = Partition { error_code: 3 };
    let bytes = p.serialize();
    assert_eq!(bytes, vec![0x00, 0x03]);
    let (decoded, rest) = Partition::deserialize(&bytes).unwrap();
    assert_eq!(decoded.error_code, 3);
    assert!(rest.is_empty());
    assert_eq!(
        Partition::deserialize(&[0x00]).unwrap_err(),
        DecodeError::TruncatedInput
    );
}

#[test]
fn cursor_round_trip() {
    let c = Cursor {
        topic_name: CompactString(Some(b"t".to_vec())),
        partition_index: 5,
        tag_buffer: TagSection(None),
    };
    let bytes = c.serialize();
    assert_eq!(bytes, vec![0x02, b't', 0x00, 0x00, 0x00, 0x05, 0x00]);
    let (decoded, rest) = Cursor::deserialize(&bytes).unwrap();
    assert_eq!(decoded.topic_name.0, Some(b"t".to_vec()));
    assert_eq!(decoded.partition_index, 5);
    assert!(rest.is_empty());
}

#[test]
fn dtp_request_round_trip_without_cursor() {
    let req = DescribeTopicPartitionsRequest {
        topics: kafka_wire::primitive::CompactArray(Some(vec![TopicRequest {
            name: CompactString(Some(b"foo".to_vec())),
            tag_buffer: TagSection(None),
        }])),
        response_partition_limit: 100,
        cursor: None,
        tag_buffer: TagSection(None),
    };
    let bytes = req.serialize();
    assert_eq!(
        bytes,
        vec![
            0x02, // one topic
            0x04, b'f', b'o', b'o', 0x00, // its name and tags
            0x00, 0x00, 0x00, 0x64, // partition limit
            0xFF, // no cursor
            0x00, // tags
        ]
    );
    let (decoded, rest) = DescribeTopicPartitionsRequest::deserialize(&bytes).unwrap();
    let topics = decoded.topics.0.unwrap();
    assert_eq!(topics.len(), 1);
    assert_eq!(topics[0].name.0, Some(b"foo".to_vec()));
    assert_eq!(decoded.response_partition_limit, 100);
    assert!(decoded.cursor.is_none());
    assert!(rest.is_empty());
}

#[test]
fn dtp_request_round_trip_with_cursor() {
    let req = DescribeTopicPartitionsRequest {
        topics: kafka_wire::primitive::CompactArray(None),
        response_partition_limit: 1,
        cursor: Some(Cursor {
            topic_name: CompactString(None),
            partition_index: 2,
            tag_buffer: TagSection(None),
        }),
        tag_buffer: TagSection(None),
    };
    let bytes = req.serialize();
    let (decoded, rest) = DescribeTopicPartitionsRequest::deserialize(&bytes).unwrap();
    assert!(decoded.topics.0.is_none());
    let cursor = decoded.cursor.unwrap();
    assert!(cursor.topic_name.0.is_none());
    assert_eq!(cursor.partition_index, 2);
    assert!(rest.is_empty());
}

#[test]
fn dtp_request_truncated_cursor() {
    // Topics null, limit present, then nothing where the cursor byte
    // should be.
    let bytes = vec![0x00, 0x00, 0x00, 0x00, 0x01];
    let r = DescribeTopicPartitionsRequest::deserialize(&bytes);
    assert_eq!(r.unwrap_err(), DecodeError::TruncatedInput);
}

#[test]
fn unknown_topic_entry() {
    let entry = TopicResponse::unknown_topic(b"foo".to_vec());
    assert_eq!(entry.error_code, 3);
    assert_eq!(entry.name.0, Some(b"foo".to_vec()));
    assert_eq!(entry.topic_id.0, vec![0u8; 16]);
    assert!(!entry.is_internal);
    assert_eq!(entry.partitions.0.as_ref().unwrap().len(), 0);
    assert_eq!(entry.topic_authorized_operations, 0);
    let bytes = entry.serialize();
    let mut expected = vec![0x00, 0x03, 0x04, b'f', b'o', b'o'];
    expected.extend(vec![0u8; 16]);
    expected.extend(vec![0x00, 0x01, 0x00, 0x00, 0x00, 0x00, 0x00]);
    assert_eq!(bytes, expected);
}

#[test]
fn topic_record_decode() {
    let mut bytes = vec![
        0x01, // frame version
        0x02, // record type
        0x00, // version
        0x03, b'b', b'a', b'r', // name, plain varint length
    ];
    for i in 0..16 {
        bytes.push(i as u8);
    }
    bytes.push(0x00); // tag field count
    bytes.push(0xEE); // trailing byte
    let (record, rest) = TopicRecord::deserialize(&bytes).unwrap();
    assert_eq!(record.frame_version, 1);
    assert_eq!(record.record_type, 2);
    assert_eq!(record.version, 0);
    assert_eq!(record.name, b"bar".to_vec());
    assert_eq!(record.uuid.len(), 16);
    assert_eq!(record.uuid[15], 15);
    assert!(record.tag_buffer.0.is_none());
    assert_eq!(rest, &[0xEE]);
}

#[test]
fn topic_record_truncated_uuid() {
    let bytes = vec![0x01, 0x02, 0x00, 0x00, 0xAB];
    let r = TopicRecord::deserialize(&bytes);
    assert_eq!(r.unwrap_err(), DecodeError::TruncatedInput);
}

#[test]
fn request_header_rejects_invalid_utf8_client_id() {
    // Client id of length 1 holding a lone continuation byte.
    let bytes = vec![0x00, 0x12, 0x00, 0x04, 0x00, 0x00, 0x00, 0x07, 0x00, 0x01, 0xFF, 0x00];
    let r = RequestHeader::deserialize(&bytes);
    assert_eq!(r.unwrap_err(), DecodeError::InvalidUtf8);
}

#[test]
fn request_header_accepts_multibyte_client_id() {
    // Client id "é" (0xC3 0xA9), then an empty tag section.
    let bytes = vec![0x00, 0x12, 0x00, 0x04, 0x00, 0x00, 0x00, 0x07, 0x00, 0x02, 0xC3, 0xA9, 0x00];
    let (header, _) = RequestHeader::deserialize(&bytes).unwrap();
    assert_eq!(header.client_id, Some(vec![0xC3, 0xA9]));
}
