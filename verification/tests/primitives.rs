use kafka_wire::error::DecodeError;
use kafka_wire::primitive::{
    CompactArray, CompactString, Encode, Serializable, TagField, TagSection, UnsignedVarint, Uuid,
    Varint,
};

fn uvarint_round_trip(v: u32) {
    let bytes = UnsignedVarint(v).serialize();
    let (decoded, rest) = UnsignedVarint::deserialize(&bytes).unwrap();
    assert_eq!(decoded.0, v);
    assert!(rest.is_empty());
}

#[test]
fn uvarint_small_values() {
    for v in [0u32, 1, 42, 127] {
        let bytes = UnsignedVarint(v).serialize();
        assert_eq!(bytes, vec![v as u8]);
        uvarint_round_trip(v);
    }
}

#[test]
fn uvarint_multi_byte_values() {
    assert_eq!(UnsignedVarint(128).serialize(), vec![0x80, 0x01]);
    assert_eq!(UnsignedVarint(300).serialize(), vec![0xAC, 0x02]);
    for v in [128u32, 300, 16383, 16384, 2097151, 2097152, u32::MAX] {
        uvarint_round_trip(v);
    }
}

#[test]
fn uvarint_encoding_is_at_most_five_bytes() {
    for v in [0u32, 127, 128, 65536, 1 << 28, u32::MAX] {
        let bytes = UnsignedVarint(v).serialize();
        assert!(1 <= bytes.len() && bytes.len() <= 5);
    }
    assert_eq!(UnsignedVarint(u32::MAX).serialize().len(), 5);
}

#[test]
fn uvarint_rejects_six_byte_nonterminating_sequence() {
    let bytes = vec![0x80u8, 0x80, 0x80, 0x80, 0x80, 0x80];
    let r = UnsignedVarint::deserialize(&bytes);
    assert_eq!(r.unwrap_err(), DecodeError::InvalidEncoding);
}

#[test]
fn uvarint_truncated_input() {
    let r = UnsignedVarint::deserialize(&[0x80, 0x80]);
    assert_eq!(r.unwrap_err(), DecodeError::TruncatedInput);
    let r = UnsignedVarint::deserialize(&[]);
    assert_eq!(r.unwrap_err(), DecodeError::TruncatedInput);
}

#[test]
fn uvarint_leaves_suffix_untouched() {
    let bytes = vec![0xAC, 0x02, 0xDE, 0xAD];
    let (decoded, rest) = UnsignedVarint::deserialize(&bytes).unwrap();
    assert_eq!(decoded.0, 300);
    assert_eq!(rest, &[0xDE, 0xAD]);
}

#[test]
fn varint_zigzag_round_trip() {
    for n in [i32::MIN, -1, 0, 1, i32::MAX, -2, 2, -64, 63, 64, -65] {
        let bytes = Varint(n).serialize();
        let (decoded, rest) = Varint::deserialize(&bytes).unwrap();
        assert_eq!(decoded.0, n);
        assert!(rest.is_empty());
    }
}

#[test]
fn varint_zigzag_encoding_values() {
    assert_eq!(Varint(0).serialize(), vec![0x00]);
    assert_eq!(Varint(-1).serialize(), vec![0x01]);
    assert_eq!(Varint(1).serialize(), vec![0x02]);
    assert_eq!(Varint(-2).serialize(), vec![0x03]);
}

#[test]
fn tag_field_round_trip() {
    let field = TagField { tag: 7, data: vec![1, 2, 3] };
    let bytes = field.serialize();
    assert_eq!(bytes, vec![0x07, 0x03, 1, 2, 3]);
    let (decoded, rest) = TagField::deserialize(&bytes).unwrap();
    assert_eq!(decoded.tag, 7);
    assert_eq!(decoded.data, vec![1, 2, 3]);
    assert!(rest.is_empty());
}

#[test]
fn tag_field_truncated_data() {
    let r = TagField::deserialize(&[0x07, 0x03, 1]);
    assert_eq!(r.unwrap_err(), DecodeError::TruncatedInput);
}

#[test]
fn tag_section_empty_is_single_zero_byte() {
    assert_eq!(TagSection(None).serialize(), vec![0x00]);
    assert_eq!(TagSection::new().serialize(), vec![0x00]);
    let (decoded, rest) = TagSection::deserialize(&[0x00]).unwrap();
    assert!(decoded.0.is_none());
    assert!(rest.is_empty());
}

#[test]
fn tag_section_round_trip_with_fields() {
    let section = TagSection(Some(vec![
        TagField { tag: 0, data: vec![9] },
        TagField { tag: 1, data: vec![] },
    ]));
    let bytes = section.serialize();
    assert_eq!(bytes, vec![0x02, 0x00, 0x01, 9, 0x01, 0x00]);
    let (decoded, rest) = TagSection::deserialize(&bytes).unwrap();
    let fields = decoded.0.unwrap();
    assert_eq!(fields.len(), 2);
    assert_eq!(fields[0].tag, 0);
    assert_eq!(fields[0].data, vec![9]);
    assert_eq!(fields[1].tag, 1);
    assert!(fields[1].data.is_empty());
    assert!(rest.is_empty());
}

#[test]
fn compact_string_null_vs_empty() {
    let null = CompactString(None);
    assert_eq!(null.serialize(), vec![0x00]);
    let (decoded, _) = CompactString::deserialize(&[0x00]).unwrap();
    assert!(decoded.0.is_none());

    let empty = CompactString(Some(Vec::new()));
    assert_eq!(empty.serialize(), vec![0x01]);
    let (decoded, _) = CompactString::deserialize(&[0x01]).unwrap();
    assert_eq!(decoded.0, Some(Vec::new()));
}

#[test]
fn compact_string_round_trip() {
    let s = CompactString(Some(b"foo".to_vec()));
    let bytes = s.serialize();
    assert_eq!(bytes, vec![0x04, b'f', b'o', b'o']);
    let (decoded, rest) = CompactString::deserialize(&bytes).unwrap();
    assert_eq!(decoded.0, Some(b"foo".to_vec()));
    assert!(rest.is_empty());
}

#[test]
fn compact_string_truncated() {
    let r = CompactString::deserialize(&[0x04, b'f']);
    assert_eq!(r.unwrap_err(), DecodeError::TruncatedInput);
}

#[test]
fn compact_array_null_vs_empty() {
    let null: CompactArray<UnsignedVarint> = CompactArray(None);
    assert_eq!(null.serialize(), vec![0x00]);
    let (decoded, _) = CompactArray::<UnsignedVarint>::deserialize(&[0x00]).unwrap();
    assert!(decoded.0.is_none());

    let empty: CompactArray<UnsignedVarint> = CompactArray(Some(Vec::new()));
    assert_eq!(empty.serialize(), vec![0x01]);
    let (decoded, _) = CompactArray::<UnsignedVarint>::deserialize(&[0x01]).unwrap();
    assert_eq!(decoded.0.unwrap().len(), 0);
}

#[test]
fn compact_array_round_trip() {
    let arr = CompactArray(Some(vec![UnsignedVarint(1), UnsignedVarint(300)]));
    let bytes = arr.serialize();
    assert_eq!(bytes, vec![0x03, 0x01, 0xAC, 0x02]);
    let (decoded, rest) = CompactArray::<UnsignedVarint>::deserialize(&bytes).unwrap();
    let items = decoded.0.unwrap();
    assert_eq!(items.len(), 2);
    assert_eq!(items[0].0, 1);
    assert_eq!(items[1].0, 300);
    assert!(rest.is_empty());
}

#[test]
fn compact_array_truncated_element() {
    let r = CompactArray::<UnsignedVarint>::deserialize(&[0x03, 0x01]);
    assert_eq!(r.unwrap_err(), DecodeError::TruncatedInput);
}

#[test]
fn boolean_encoding() {
    assert_eq!(true.serialize(), vec![0x01]);
    assert_eq!(false.serialize(), vec![0x00]);
    let (v, _) = bool::deserialize(&[0x01]).unwrap();
    assert!(v);
    let (v, _) = bool::deserialize(&[0x00]).unwrap();
    assert!(!v);
    assert_eq!(bool::deserialize(&[0x02]).unwrap_err(), DecodeError::InvalidEncoding);
}

#[test]
fn scalar_round_trips() {
    for v in [i16::MIN, -1, 0, 1, i16::MAX] {
        let bytes = v.serialize();
        assert_eq!(bytes.len(), 2);
        let (decoded, _) = i16::deserialize(&bytes).unwrap();
        assert_eq!(decoded, v);
    }
    for v in [i32::MIN, -1, 0, 1, i32::MAX] {
        let bytes = v.serialize();
        assert_eq!(bytes.len(), 4);
        let (decoded, _) = i32::deserialize(&bytes).unwrap();
        assert_eq!(decoded, v);
    }
    assert_eq!(18i16.serialize(), vec![0x00, 0x12]);
    assert_eq!(7i32.serialize(), vec![0x00, 0x00, 0x00, 0x07]);
}

#[test]
fn uuid_nil_and_round_trip() {
    let nil = Uuid::nil();
    let bytes = nil.serialize();
    assert_eq!(bytes, vec![0u8; 16]);
    let mut input = vec![0u8; 16];
    input[0] = 0xAB;
    input.push(0xFF);
    let (decoded, rest) = Uuid::deserialize(&input).unwrap();
    assert_eq!(decoded.0[0], 0xAB);
    assert_eq!(decoded.0.len(), 16);
    assert_eq!(rest, &[0xFF]);
}

#[test]
fn utf8_validator_agrees_with_std() {
    let cases: Vec<Vec<u8>> = vec![
        vec![],
        b"plain ascii".to_vec(),
        vec![0xC3, 0xA9],
        vec![0xE2, 0x82, 0xAC],
        vec![0xF0, 0x9F, 0x92, 0x96],
        vec![0x80],
        vec![0xC3],
        vec![0xC0, 0xAF],
        vec![0xE0, 0x80, 0x80],
        vec![0xED, 0xA0, 0x80],
        vec![0xF0, 0x80, 0x80, 0x80],
        vec![0xF4, 0x90, 0x80, 0x80],
        vec![0xF5, 0x80, 0x80, 0x80],
        vec![0xFF],
        vec![0x61, 0xC3, 0xA9, 0xF0, 0x9F, 0x92, 0x96, 0x7A],
    ];
    for case in cases {
        assert_eq!(
            kafka_wire::text::is_valid_utf8(&case),
            std::str::from_utf8(&case).is_ok(),
        );
    }
}
