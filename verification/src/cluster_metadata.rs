//! On-disk cluster metadata records. These types model the record-batch
//! format; only the topic record's decoder is exercised at this scope, and
//! nothing here is reached by the request path.

use vstd::prelude::*;

use crate::error::DecodeError;
use crate::primitive::{
    read_bytes, spec_uvarint_dec, Serializable, TagFieldV, TagSection, UnsignedVarint,
    Varint,
};

verus! {

/// The fixed header of an on-disk record batch.
#[derive(Debug)]
pub struct RecordBatch {
    pub partition_leader_epoch: i32,
    pub magic_byte: i8,
    pub crc: i32,
    pub attributes: i16,
    pub last_offset_delta: i32,
    pub base_timestamp: i64,
    pub max_timestamp: i64,
    pub producer_id: i64,
    pub producer_epoch: i16,
    pub base_sequence: i32,
    pub records_length: i32,
}

/// One record of a batch, generic in the payload it carries.
#[derive(Debug)]
pub struct Record<T: Serializable> {
    pub attributes: i8,
    pub timestamp_delta: Varint,
    pub offset_delta: Varint,
    pub key: Vec<u8>,
    pub value: T,
    pub headers: Vec<u8>,
}

/// The model of a topic record.
pub ghost struct TopicRecordV {
    pub frame_version: i8,
    pub record_type: i8,
    pub version: i8,
    pub name: Seq<u8>,
    pub uuid: Seq<u8>,
    pub tag_buffer: Seq<TagFieldV>,
}

/// A topic record of the cluster metadata log: a name and its topic id.
#[derive(Debug)]
pub struct TopicRecord {
    pub frame_version: i8,
    pub record_type: i8,
    pub version: i8,
    pub name: Vec<u8>,
    pub uuid: Vec<u8>,
    pub tag_buffer: TagSection,
}

impl View for TopicRecord {
    type V = TopicRecordV;

    open spec fn view(&self) -> TopicRecordV {
        TopicRecordV {
            frame_version: self.frame_version,
            record_type: self.record_type,
            version: self.version,
            name: self.name@,
            uuid: self.uuid@,
            tag_buffer: self.tag_buffer@,
        }
    }
}

/// The decoding of a topic record: three version bytes, a varint-length
/// name, a 16-byte id, and a tag-field count whose fields are not read at
/// this scope.
pub open spec fn spec_topic_record_dec(s: Seq<u8>) -> Result<(TopicRecordV, int), DecodeError> {
    if s.len() < 3 {
        Err(DecodeError::TruncatedInput)
    } else {
        match spec_uvarint_dec(s.skip(3)) {
            Err(e) => Err(e),
            Ok((name_len, n1)) => {
                let after_len = s.skip(3 + n1);
                if after_len.len() < name_len as int {
                    Err(DecodeError::TruncatedInput)
                } else {
                    let after_name = after_len.skip(name_len as int);
                    if after_name.len() < 16 {
                        Err(DecodeError::TruncatedInput)
                    } else {
                        match spec_uvarint_dec(after_name.skip(16)) {
                            Err(e) => Err(e),
                            Ok((_, n2)) => Ok(
                                (
                                    TopicRecordV {
                                        frame_version: s[0] as i8,
                                        record_type: s[1] as i8,
                                        version: s[2] as i8,
                                        name: after_len.take(name_len as int),
                                        uuid: after_name.take(16),
                                        tag_buffer: Seq::empty(),
                                    },
                                    3 + n1 + name_len + 16 + n2,
                                ),
                            ),
                        }
                    }
                }
            },
        }
    }
}

impl TopicRecord {
    /// Parses a topic record off the front of a slice.
    pub fn deserialize(bytes: &[u8]) -> (r: Result<(Self, &[u8]), DecodeError>)
        ensures
            match r {
                Ok(p) => spec_topic_record_dec(bytes@) matches Ok((m, n)) && p.0@ == m && 0 <= n
                    <= bytes@.len() && p.1@ == bytes@.skip(n),
                Err(e) => spec_topic_record_dec(bytes@) == Err::<(TopicRecordV, int), DecodeError>(
                    e,
                ),
            },
    {
        if bytes.len() < 3 {
            return Err(DecodeError::TruncatedInput);
        }
        let frame_version: i8 = bytes[0] as i8;
        let record_type: i8 = bytes[1] as i8;
        let version: i8 = bytes[2] as i8;
        let rest0: &[u8] = vstd::slice::slice_subrange(bytes, 3, bytes.len());
        proof {
            assert(rest0@ =~= bytes@.skip(3));
        }
        let (name_len, rest1) = match UnsignedVarint::deserialize(rest0) {
            Ok(p) => p,
            Err(e) => {
                return Err(e);
            },
        };
        let ghost n1 = spec_uvarint_dec(bytes@.skip(3))->Ok_0.1;
        proof {
            assert(bytes@.skip(3).skip(n1) =~= bytes@.skip(3 + n1));
        }
        let (name, rest2) = match read_bytes(rest1, name_len.0 as usize) {
            Some(p) => p,
            None => {
                return Err(DecodeError::TruncatedInput);
            },
        };
        proof {
            assert(bytes@.skip(3 + n1).skip(name_len.0 as int) =~= bytes@.skip(
                3 + n1 + name_len.0 as int,
            ));
        }
        let (uuid, rest3) = match read_bytes(rest2, 16) {
            Some(p) => p,
            None => {
                return Err(DecodeError::TruncatedInput);
            },
        };
        proof {
            assert(bytes@.skip(3 + n1 + name_len.0 as int).skip(16) =~= bytes@.skip(
                3 + n1 + name_len.0 as int + 16,
            ));
        }
        let (_tag_field_count, rest4) = match UnsignedVarint::deserialize(rest3) {
            Ok(p) => p,
            Err(e) => {
                return Err(e);
            },
        };
        proof {
            let n2 = spec_uvarint_dec(bytes@.skip(3 + n1 + name_len.0 as int + 16))->Ok_0.1;
            assert(bytes@.skip(3 + n1 + name_len.0 as int + 16).skip(n2) =~= bytes@.skip(
                3 + n1 + name_len.0 as int + 16 + n2,
            ));
        }
        let r = TopicRecord {
            frame_version,
            record_type,
            version,
            name,
            uuid,
            tag_buffer: TagSection(None),
        };
        proof {
            assert(r@.tag_buffer =~= Seq::<TagFieldV>::empty());
        }
        Ok((r, rest4))
    }
}

} // verus!
