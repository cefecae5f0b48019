//! The DescribeTopicPartitions request and response (API key 75).
//!
//! The request names topics to describe, with a partition limit and an
//! optional pagination cursor; at this scope the server answers every topic
//! with an unknown-topic record that echoes the name. An absent cursor is a
//! single `0xFF` byte; a present one is introduced by a marker byte other
//! than `0xFF` and decoders consume that marker, so the encoder here emits
//! `0x01` before a present cursor to keep the round trip exact.

use vstd::prelude::*;
use vstd::slice::slice_subrange;

use crate::error::DecodeError;
use crate::primitive::{
    spec_compact_string_dec, spec_i16_dec, spec_i32_be, spec_i32_dec, spec_tag_section_dec,
    CompactArray, CompactString, Encode, Serializable, TagFieldV, TagSection, Uuid,
};

verus! {

/// The model of one requested topic: its name and a tag section.
pub ghost struct TopicRequestV {
    pub name: Option<Seq<u8>>,
    pub tag_buffer: Seq<TagFieldV>,
}

/// One topic named in a DescribeTopicPartitions request.
#[derive(Debug)]
pub struct TopicRequest {
    pub name: CompactString,
    pub tag_buffer: TagSection,
}

impl View for TopicRequest {
    type V = TopicRequestV;

    open spec fn view(&self) -> TopicRequestV {
        TopicRequestV { name: self.name@, tag_buffer: self.tag_buffer@ }
    }
}

/// The decoding of a requested topic: compact-string name, then tags.
pub open spec fn spec_topic_request_dec(s: Seq<u8>) -> Result<(TopicRequestV, int), DecodeError> {
    match spec_compact_string_dec(s) {
        Err(e) => Err(e),
        Ok((name, n1)) => match spec_tag_section_dec(s.skip(n1)) {
            Err(e) => Err(e),
            Ok((tag_buffer, n2)) => Ok((TopicRequestV { name, tag_buffer }, n1 + n2)),
        },
    }
}

impl Encode for TopicRequest {
    open spec fn m_wf(m: TopicRequestV) -> bool {
        CompactString::m_wf(m.name) && TagSection::m_wf(m.tag_buffer)
    }

    open spec fn m_enc(m: TopicRequestV) -> Seq<u8> {
        CompactString::m_enc(m.name) + TagSection::m_enc(m.tag_buffer)
    }

    fn serialize(&self) -> (r: Vec<u8>) {
        let mut buf: Vec<u8> = self.name.serialize();
        let mut tail: Vec<u8> = self.tag_buffer.serialize();
        buf.append(&mut tail);
        buf
    }
}

impl Serializable for TopicRequest {
    open spec fn m_dec(s: Seq<u8>) -> Result<(TopicRequestV, int), DecodeError> {
        spec_topic_request_dec(s)
    }

    proof fn lemma_dec_ok(s: Seq<u8>) {
        CompactString::lemma_dec_ok(s);
        match spec_compact_string_dec(s) {
            Err(_) => {},
            Ok((_, n1)) => {
                TagSection::lemma_dec_ok(s.skip(n1));
            },
        }
    }

    proof fn lemma_round_trip(m: TopicRequestV, rest: Seq<u8>) {
        let name_enc = CompactString::m_enc(m.name);
        let tag_enc = TagSection::m_enc(m.tag_buffer);
        let s = Self::m_enc(m) + rest;
        CompactString::lemma_round_trip(m.name, tag_enc + rest);
        assert(s =~= name_enc + (tag_enc + rest));
        let n1 = name_enc.len() as int;
        assert(s.skip(n1) =~= tag_enc + rest);
        TagSection::lemma_round_trip(m.tag_buffer, rest);
    }

    fn deserialize(bytes: &[u8]) -> (r: Result<(Self, &[u8]), DecodeError>) {
        let (name, rest1) = match CompactString::deserialize(bytes) {
            Ok(p) => p,
            Err(e) => {
                return Err(e);
            },
        };
        let ghost n1 = spec_compact_string_dec(bytes@)->Ok_0.1;
        let (tag_buffer, rest2) = match TagSection::deserialize(rest1) {
            Ok(p) => p,
            Err(e) => {
                return Err(e);
            },
        };
        proof {
            let n2 = spec_tag_section_dec(bytes@.skip(n1))->Ok_0.1;
            assert(bytes@.skip(n1).skip(n2) =~= bytes@.skip(n1 + n2));
        }
        Ok((TopicRequest { name, tag_buffer }, rest2))
    }
}

/// One partition entry of a topic response; only the error code is in scope
/// here.
#[derive(Debug, Default)]
pub struct Partition {
    pub error_code: i16,
}

impl View for Partition {
    type V = i16;

    open spec fn view(&self) -> i16 {
        self.error_code
    }
}

impl Encode for Partition {
    open spec fn m_wf(m: i16) -> bool {
        true
    }

    open spec fn m_enc(m: i16) -> Seq<u8> {
        crate::primitive::spec_i16_be(m)
    }

    fn serialize(&self) -> (r: Vec<u8>) {
        self.error_code.serialize()
    }
}

impl Serializable for Partition {
    open spec fn m_dec(s: Seq<u8>) -> Result<(i16, int), DecodeError> {
        spec_i16_dec(s)
    }

    proof fn lemma_dec_ok(s: Seq<u8>) {
        i16::lemma_dec_ok(s);
    }

    proof fn lemma_round_trip(m: i16, rest: Seq<u8>) {
        i16::lemma_round_trip(m, rest);
    }

    fn deserialize(bytes: &[u8]) -> (r: Result<(Self, &[u8]), DecodeError>) {
        match i16::deserialize(bytes) {
            Err(e) => Err(e),
            Ok((error_code, rest)) => Ok((Partition { error_code }, rest)),
        }
    }
}

/// The model of a pagination cursor.
pub ghost struct CursorV {
    pub topic_name: Option<Seq<u8>>,
    pub partition_index: i32,
    pub tag_buffer: Seq<TagFieldV>,
}

/// A pagination cursor: the topic and partition to continue from.
#[derive(Debug)]
pub struct Cursor {
    pub topic_name: CompactString,
    pub partition_index: i32,
    pub tag_buffer: TagSection,
}

impl View for Cursor {
    type V = CursorV;

    open spec fn view(&self) -> CursorV {
        CursorV {
            topic_name: self.topic_name@,
            partition_index: self.partition_index,
            tag_buffer: self.tag_buffer@,
        }
    }
}

/// The decoding of a cursor body: compact-string topic name, partition
/// index, tags.
pub open spec fn spec_cursor_dec(s: Seq<u8>) -> Result<(CursorV, int), DecodeError> {
    match spec_compact_string_dec(s) {
        Err(e) => Err(e),
        Ok((topic_name, n1)) => match spec_i32_dec(s.skip(n1)) {
            Err(e) => Err(e),
            Ok((partition_index, n2)) => match spec_tag_section_dec(s.skip(n1 + n2)) {
                Err(e) => Err(e),
                Ok((tag_buffer, n3)) => Ok(
                    (CursorV { topic_name, partition_index, tag_buffer }, n1 + n2 + n3),
                ),
            },
        },
    }
}

impl Encode for Cursor {
    open spec fn m_wf(m: CursorV) -> bool {
        CompactString::m_wf(m.topic_name) && TagSection::m_wf(m.tag_buffer)
    }

    open spec fn m_enc(m: CursorV) -> Seq<u8> {
        CompactString::m_enc(m.topic_name) + spec_i32_be(m.partition_index) + TagSection::m_enc(
            m.tag_buffer,
        )
    }

    fn serialize(&self) -> (r: Vec<u8>) {
        let mut buf: Vec<u8> = self.topic_name.serialize();
        let mut mid: Vec<u8> = self.partition_index.serialize();
        buf.append(&mut mid);
        let mut tail: Vec<u8> = self.tag_buffer.serialize();
        buf.append(&mut tail);
        buf
    }
}

impl Serializable for Cursor {
    open spec fn m_dec(s: Seq<u8>) -> Result<(CursorV, int), DecodeError> {
        spec_cursor_dec(s)
    }

    proof fn lemma_dec_ok(s: Seq<u8>) {
        CompactString::lemma_dec_ok(s);
        match spec_compact_string_dec(s) {
            Err(_) => {},
            Ok((_, n1)) => {
                match spec_i32_dec(s.skip(n1)) {
                    Err(_) => {},
                    Ok((_, n2)) => {
                        TagSection::lemma_dec_ok(s.skip(n1 + n2));
                    },
                }
            },
        }
    }

    proof fn lemma_round_trip(m: CursorV, rest: Seq<u8>) {
        let name_enc = CompactString::m_enc(m.topic_name);
        let idx_enc = spec_i32_be(m.partition_index);
        let tag_enc = TagSection::m_enc(m.tag_buffer);
        let s = Self::m_enc(m) + rest;
        CompactString::lemma_round_trip(m.topic_name, idx_enc + (tag_enc + rest));
        assert(s =~= name_enc + (idx_enc + (tag_enc + rest)));
        let n1 = name_enc.len() as int;
        assert(s.skip(n1) =~= idx_enc + (tag_enc + rest));
        i32::lemma_round_trip(m.partition_index, tag_enc + rest);
        assert(i32::m_enc(m.partition_index) == idx_enc);
        assert(s.skip(n1).skip(4) =~= tag_enc + rest);
        assert(s.skip(n1 + 4) =~= s.skip(n1).skip(4));
        TagSection::lemma_round_trip(m.tag_buffer, rest);
    }

    fn deserialize(bytes: &[u8]) -> (r: Result<(Self, &[u8]), DecodeError>) {
        let (topic_name, rest1) = match CompactString::deserialize(bytes) {
            Ok(p) => p,
            Err(e) => {
                return Err(e);
            },
        };
        let ghost n1 = spec_compact_string_dec(bytes@)->Ok_0.1;
        let (partition_index, rest2) = match i32::deserialize(rest1) {
            Ok(p) => p,
            Err(e) => {
                return Err(e);
            },
        };
        proof {
            assert(bytes@.skip(n1).skip(4) =~= bytes@.skip(n1 + 4));
        }
        let (tag_buffer, rest3) = match TagSection::deserialize(rest2) {
            Ok(p) => p,
            Err(e) => {
                return Err(e);
            },
        };
        proof {
            let n3 = spec_tag_section_dec(bytes@.skip(n1 + 4))->Ok_0.1;
            assert(bytes@.skip(n1 + 4).skip(n3) =~= bytes@.skip(n1 + 4 + n3));
        }
        Ok((Cursor { topic_name, partition_index, tag_buffer }, rest3))
    }
}

/// The encoding of an optional cursor: `0xFF` when absent, otherwise a
/// marker byte and the cursor body.
pub open spec fn spec_opt_cursor_enc(m: Option<CursorV>) -> Seq<u8> {
    match m {
        None => seq![0xFFu8],
        Some(c) => seq![0x01u8] + Cursor::m_enc(c),
    }
}

/// The decoding of an optional cursor; the marker byte is consumed either
/// way.
pub open spec fn spec_opt_cursor_dec(s: Seq<u8>) -> Result<(Option<CursorV>, int), DecodeError> {
    if s.len() == 0 {
        Err(DecodeError::TruncatedInput)
    } else if s[0] == 0xFF {
        Ok((None, 1))
    } else {
        match spec_cursor_dec(s.skip(1)) {
            Err(e) => Err(e),
            Ok((c, n)) => Ok((Some(c), n + 1)),
        }
    }
}

pub open spec fn spec_opt_cursor_wf(m: Option<CursorV>) -> bool {
    m matches Some(c) ==> Cursor::m_wf(c)
}

/// Round trip for optional cursors: the marker byte distinguishes the two
/// shapes, so decoding an encoding gives the cursor back.
pub proof fn lemma_opt_cursor_round_trip(m: Option<CursorV>, rest: Seq<u8>)
    requires
        spec_opt_cursor_wf(m),
    ensures
        spec_opt_cursor_dec(spec_opt_cursor_enc(m) + rest) == Ok::<
            (Option<CursorV>, int),
            DecodeError,
        >((m, spec_opt_cursor_enc(m).len() as int)),
{
    let s = spec_opt_cursor_enc(m) + rest;
    match m {
        None => {
            assert(s[0] == 0xFF);
        },
        Some(c) => {
            assert(s[0] == 0x01);
            assert(s.skip(1) =~= Cursor::m_enc(c) + rest);
            Cursor::lemma_round_trip(c, rest);
        },
    }
}

/// Serializes an optional cursor.
fn serialize_opt_cursor(cursor: &Option<Cursor>) -> (r: Vec<u8>)
    requires
        spec_opt_cursor_wf(view_opt_cursor(*cursor)),
    ensures
        r@ == spec_opt_cursor_enc(view_opt_cursor(*cursor)),
{
    match cursor {
        None => {
            let mut buf: Vec<u8> = Vec::new();
            buf.push(0xFF);
            proof {
                assert(buf@ =~= spec_opt_cursor_enc(view_opt_cursor(*cursor)));
            }
            buf
        },
        Some(c) => {
            let mut buf: Vec<u8> = Vec::new();
            buf.push(0x01);
            let mut body: Vec<u8> = c.serialize();
            buf.append(&mut body);
            proof {
                assert(buf@ =~= spec_opt_cursor_enc(view_opt_cursor(*cursor)));
            }
            buf
        },
    }
}

/// The model of an optional cursor.
pub open spec fn view_opt_cursor(c: Option<Cursor>) -> Option<CursorV> {
    match c {
        None => None,
        Some(cursor) => Some(cursor@),
    }
}

/// Reads an optional cursor off the front of a slice.
fn deserialize_opt_cursor(bytes: &[u8]) -> (r: Result<(Option<Cursor>, &[u8]), DecodeError>)
    ensures
        match r {
            Ok(p) => spec_opt_cursor_dec(bytes@) matches Ok((m, n)) && view_opt_cursor(p.0) == m
                && spec_opt_cursor_wf(view_opt_cursor(p.0)) && 0 <= n <= bytes@.len() && p.1@
                == bytes@.skip(n),
            Err(e) => spec_opt_cursor_dec(bytes@) == Err::<(Option<CursorV>, int), DecodeError>(
                e,
            ),
        },
{
    if bytes.len() == 0 {
        return Err(DecodeError::TruncatedInput);
    }
    let marker: u8 = bytes[0];
    let rest0: &[u8] = slice_subrange(bytes, 1, bytes.len());
    proof {
        assert(rest0@ =~= bytes@.skip(1));
    }
    if marker == 0xFF {
        return Ok((None, rest0));
    }
    match Cursor::deserialize(rest0) {
        Err(e) => Err(e),
        Ok((c, rest1)) => {
            proof {
                let n = spec_cursor_dec(bytes@.skip(1))->Ok_0.1;
                assert(bytes@.skip(1).skip(n) =~= bytes@.skip(1 + n));
                Cursor::lemma_dec_ok(bytes@.skip(1));
            }
            Ok((Some(c), rest1))
        },
    }
}

/// The model of a topic entry in a DescribeTopicPartitions response.
pub ghost struct TopicResponseV {
    pub error_code: i16,
    pub name: Option<Seq<u8>>,
    pub topic_id: Seq<u8>,
    pub is_internal: bool,
    pub partitions: Option<Seq<i16>>,
    pub topic_authorized_operations: i32,
    pub tag_buffer: Seq<TagFieldV>,
}

/// One topic entry of a DescribeTopicPartitions response.
#[derive(Debug)]
pub struct TopicResponse {
    pub error_code: i16,
    pub name: CompactString,
    pub topic_id: Uuid,
    pub is_internal: bool,
    pub partitions: CompactArray<Partition>,
    pub topic_authorized_operations: i32,
    pub tag_buffer: TagSection,
}

impl View for TopicResponse {
    type V = TopicResponseV;

    open spec fn view(&self) -> TopicResponseV {
        TopicResponseV {
            error_code: self.error_code,
            name: self.name@,
            topic_id: self.topic_id@,
            is_internal: self.is_internal,
            partitions: self.partitions@,
            topic_authorized_operations: self.topic_authorized_operations,
            tag_buffer: self.tag_buffer@,
        }
    }
}

impl Encode for TopicResponse {
    open spec fn m_wf(m: TopicResponseV) -> bool {
        &&& CompactString::m_wf(m.name)
        &&& m.topic_id.len() == 16
        &&& CompactArray::<Partition>::m_wf(m.partitions)
        &&& TagSection::m_wf(m.tag_buffer)
    }

    open spec fn m_enc(m: TopicResponseV) -> Seq<u8> {
        crate::primitive::spec_i16_be(m.error_code) + CompactString::m_enc(m.name) + m.topic_id
            + bool::m_enc(m.is_internal) + CompactArray::<Partition>::m_enc(m.partitions)
            + spec_i32_be(m.topic_authorized_operations) + TagSection::m_enc(m.tag_buffer)
    }

    fn serialize(&self) -> (r: Vec<u8>) {
        let mut buf: Vec<u8> = self.error_code.serialize();
        let mut part: Vec<u8> = self.name.serialize();
        buf.append(&mut part);
        let mut part: Vec<u8> = self.topic_id.serialize();
        buf.append(&mut part);
        let mut part: Vec<u8> = self.is_internal.serialize();
        buf.append(&mut part);
        let mut part: Vec<u8> = self.partitions.serialize();
        buf.append(&mut part);
        let mut part: Vec<u8> = self.topic_authorized_operations.serialize();
        buf.append(&mut part);
        let mut part: Vec<u8> = self.tag_buffer.serialize();
        buf.append(&mut part);
        buf
    }
}

/// The unknown-topic answer for a requested name (possibly null): error
/// code 3, the name echoed, nil topic id, not internal, no partitions, no
/// authorized operations.
pub open spec fn spec_unknown_topic_for(name: Option<Seq<u8>>) -> TopicResponseV {
    TopicResponseV {
        error_code: 3,
        name,
        topic_id: Seq::new(16, |i: int| 0u8),
        is_internal: false,
        partitions: Some(Seq::empty()),
        topic_authorized_operations: 0,
        tag_buffer: Seq::empty(),
    }
}

/// The unknown-topic answer for a present name.
pub open spec fn spec_unknown_topic(name: Seq<u8>) -> TopicResponseV {
    spec_unknown_topic_for(Some(name))
}

impl TopicResponse {
    /// The response entry for a topic this broker does not know.
    pub fn unknown_topic(name: Vec<u8>) -> (r: Self)
        requires
            name@.len() + 1 < 0x1_0000_0000,
        ensures
            r@ == spec_unknown_topic(name@),
            Self::m_wf(r@),
    {
        let ghost name_view = name@;
        let r = TopicResponse {
            error_code: 3,
            name: CompactString(Some(name)),
            topic_id: Uuid::nil(),
            is_internal: false,
            partitions: CompactArray(Some(Vec::new())),
            topic_authorized_operations: 0,
            tag_buffer: TagSection(None),
        };
        proof {
            assert(r@.partitions matches Some(ps) && ps =~= Seq::<i16>::empty());
            assert(r@.tag_buffer =~= Seq::<TagFieldV>::empty());
            assert(r@ == spec_unknown_topic(name_view));
        }
        r
    }
}

/// The model of a DescribeTopicPartitions request.
pub ghost struct DescribeTopicPartitionsRequestV {
    pub topics: Option<Seq<TopicRequestV>>,
    pub response_partition_limit: i32,
    pub cursor: Option<CursorV>,
    pub tag_buffer: Seq<TagFieldV>,
}

/// The decoding of a DescribeTopicPartitions request body.
pub open spec fn spec_dtp_request_dec(s: Seq<u8>) -> Result<
    (DescribeTopicPartitionsRequestV, int),
    DecodeError,
> {
    match CompactArray::<TopicRequest>::m_dec(s) {
        Err(e) => Err(e),
        Ok((topics, n1)) => match spec_i32_dec(s.skip(n1)) {
            Err(e) => Err(e),
            Ok((response_partition_limit, n2)) => match spec_opt_cursor_dec(s.skip(n1 + n2)) {
                Err(e) => Err(e),
                Ok((cursor, n3)) => match spec_tag_section_dec(s.skip(n1 + n2 + n3)) {
                    Err(e) => Err(e),
                    Ok((tag_buffer, n4)) => Ok(
                        (
                            DescribeTopicPartitionsRequestV {
                                topics,
                                response_partition_limit,
                                cursor,
                                tag_buffer,
                            },
                            n1 + n2 + n3 + n4,
                        ),
                    ),
                },
            },
        },
    }
}

/// A request to describe the named topics.
#[derive(Debug)]
pub struct DescribeTopicPartitionsRequest {
    pub topics: CompactArray<TopicRequest>,
    pub response_partition_limit: i32,
    pub cursor: Option<Cursor>,
    pub tag_buffer: TagSection,
}

impl View for DescribeTopicPartitionsRequest {
    type V = DescribeTopicPartitionsRequestV;

    open spec fn view(&self) -> DescribeTopicPartitionsRequestV {
        DescribeTopicPartitionsRequestV {
            topics: self.topics@,
            response_partition_limit: self.response_partition_limit,
            cursor: view_opt_cursor(self.cursor),
            tag_buffer: self.tag_buffer@,
        }
    }
}

impl Encode for DescribeTopicPartitionsRequest {
    open spec fn m_wf(m: DescribeTopicPartitionsRequestV) -> bool {
        &&& CompactArray::<TopicRequest>::m_wf(m.topics)
        &&& spec_opt_cursor_wf(m.cursor)
        &&& TagSection::m_wf(m.tag_buffer)
    }

    open spec fn m_enc(m: DescribeTopicPartitionsRequestV) -> Seq<u8> {
        CompactArray::<TopicRequest>::m_enc(m.topics) + spec_i32_be(m.response_partition_limit)
            + spec_opt_cursor_enc(m.cursor) + TagSection::m_enc(m.tag_buffer)
    }

    fn serialize(&self) -> (r: Vec<u8>) {
        let mut buf: Vec<u8> = self.topics.serialize();
        let mut part: Vec<u8> = self.response_partition_limit.serialize();
        buf.append(&mut part);
        let mut part: Vec<u8> = serialize_opt_cursor(&self.cursor);
        buf.append(&mut part);
        let mut part: Vec<u8> = self.tag_buffer.serialize();
        buf.append(&mut part);
        buf
    }
}

impl Serializable for DescribeTopicPartitionsRequest {
    open spec fn m_dec(s: Seq<u8>) -> Result<(DescribeTopicPartitionsRequestV, int), DecodeError> {
        spec_dtp_request_dec(s)
    }

    proof fn lemma_dec_ok(s: Seq<u8>) {
        CompactArray::<TopicRequest>::lemma_dec_ok(s);
        match CompactArray::<TopicRequest>::m_dec(s) {
            Err(_) => {},
            Ok((_, n1)) => {
                match spec_i32_dec(s.skip(n1)) {
                    Err(_) => {},
                    Ok((_, n2)) => {
                        match spec_opt_cursor_dec(s.skip(n1 + n2)) {
                            Err(_) => {},
                            Ok((c, n3)) => {
                                if s.skip(n1 + n2).len() > 0 && s.skip(n1 + n2)[0] != 0xFF {
                                    Cursor::lemma_dec_ok(s.skip(n1 + n2).skip(1));
                                }
                                TagSection::lemma_dec_ok(s.skip(n1 + n2 + n3));
                            },
                        }
                    },
                }
            },
        }
    }

    #[verifier::spinoff_prover]
    #[verifier::rlimit(60)]
    proof fn lemma_round_trip(m: DescribeTopicPartitionsRequestV, rest: Seq<u8>) {
        let topics_enc = CompactArray::<TopicRequest>::m_enc(m.topics);
        let limit_enc = spec_i32_be(m.response_partition_limit);
        let cursor_enc = spec_opt_cursor_enc(m.cursor);
        let tag_enc = TagSection::m_enc(m.tag_buffer);
        let s = Self::m_enc(m) + rest;
        CompactArray::<TopicRequest>::lemma_round_trip(
            m.topics,
            limit_enc + (cursor_enc + (tag_enc + rest)),
        );
        assert(s =~= topics_enc + (limit_enc + (cursor_enc + (tag_enc + rest))));
        let n1 = topics_enc.len() as int;
        assert(s.skip(n1) =~= limit_enc + (cursor_enc + (tag_enc + rest)));
        i32::lemma_round_trip(m.response_partition_limit, cursor_enc + (tag_enc + rest));
        assert(s.skip(n1).skip(4) =~= cursor_enc + (tag_enc + rest));
        assert(s.skip(n1 + 4) =~= s.skip(n1).skip(4));
        lemma_opt_cursor_round_trip(m.cursor, tag_enc + rest);
        let n3 = cursor_enc.len() as int;
        assert(s.skip(n1 + 4).skip(n3) =~= tag_enc + rest);
        assert(s.skip(n1 + 4 + n3) =~= s.skip(n1 + 4).skip(n3));
        TagSection::lemma_round_trip(m.tag_buffer, rest);
    }

    fn deserialize(bytes: &[u8]) -> (r: Result<(Self, &[u8]), DecodeError>) {
        let (topics, rest1) = match CompactArray::<TopicRequest>::deserialize(bytes) {
            Ok(p) => p,
            Err(e) => {
                return Err(e);
            },
        };
        let ghost n1 = CompactArray::<TopicRequest>::m_dec(bytes@)->Ok_0.1;
        let (response_partition_limit, rest2) = match i32::deserialize(rest1) {
            Ok(p) => p,
            Err(e) => {
                return Err(e);
            },
        };
        proof {
            assert(bytes@.skip(n1).skip(4) =~= bytes@.skip(n1 + 4));
        }
        let (cursor, rest3) = match deserialize_opt_cursor(rest2) {
            Ok(p) => p,
            Err(e) => {
                return Err(e);
            },
        };
        let ghost n3 = spec_opt_cursor_dec(bytes@.skip(n1 + 4))->Ok_0.1;
        proof {
            assert(bytes@.skip(n1 + 4).skip(n3) =~= bytes@.skip(n1 + 4 + n3));
        }
        let (tag_buffer, rest4) = match TagSection::deserialize(rest3) {
            Ok(p) => p,
            Err(e) => {
                return Err(e);
            },
        };
        proof {
            let n4 = spec_tag_section_dec(bytes@.skip(n1 + 4 + n3))->Ok_0.1;
            assert(bytes@.skip(n1 + 4 + n3).skip(n4) =~= bytes@.skip(n1 + 4 + n3 + n4));
        }
        Ok(
            (
                DescribeTopicPartitionsRequest {
                    topics,
                    response_partition_limit,
                    cursor,
                    tag_buffer,
                },
                rest4,
            ),
        )
    }
}

/// Copies a byte vector.
fn clone_bytes(v: &Vec<u8>) -> (r: Vec<u8>)
    ensures
        r@ == v@,
{
    vstd::slice::slice_to_vec(v.as_slice())
}

/// The unknown-topic entries for a sequence of requested topics, in
/// request order.
pub open spec fn spec_unknown_topics(ts: Seq<TopicRequestV>) -> Seq<TopicResponseV> {
    ts.map_values(|t: TopicRequestV| spec_unknown_topic_for(t.name))
}

/// The model of a DescribeTopicPartitions response body.
pub ghost struct DescribeTopicPartitionsResponseV {
    pub throttle_time: i32,
    pub topics: Option<Seq<TopicResponseV>>,
    pub next_cursor: Option<CursorV>,
    pub tag_buffer: Seq<TagFieldV>,
}

/// The response to a DescribeTopicPartitions request.
#[derive(Debug)]
pub struct DescribeTopicPartitionsResponse {
    pub throttle_time: i32,
    pub topics: CompactArray<TopicResponse>,
    pub next_cursor: Option<Cursor>,
    pub tag_buffer: TagSection,
}

impl View for DescribeTopicPartitionsResponse {
    type V = DescribeTopicPartitionsResponseV;

    open spec fn view(&self) -> DescribeTopicPartitionsResponseV {
        DescribeTopicPartitionsResponseV {
            throttle_time: self.throttle_time,
            topics: self.topics@,
            next_cursor: view_opt_cursor(self.next_cursor),
            tag_buffer: self.tag_buffer@,
        }
    }
}

impl Encode for DescribeTopicPartitionsResponse {
    open spec fn m_wf(m: DescribeTopicPartitionsResponseV) -> bool {
        &&& CompactArray::<TopicResponse>::m_wf(m.topics)
        &&& spec_opt_cursor_wf(m.next_cursor)
        &&& TagSection::m_wf(m.tag_buffer)
    }

    open spec fn m_enc(m: DescribeTopicPartitionsResponseV) -> Seq<u8> {
        spec_i32_be(m.throttle_time) + CompactArray::<TopicResponse>::m_enc(m.topics)
            + spec_opt_cursor_enc(m.next_cursor) + TagSection::m_enc(m.tag_buffer)
    }

    fn serialize(&self) -> (r: Vec<u8>) {
        let mut buf: Vec<u8> = self.throttle_time.serialize();
        let mut part: Vec<u8> = self.topics.serialize();
        buf.append(&mut part);
        let mut part: Vec<u8> = serialize_opt_cursor(&self.next_cursor);
        buf.append(&mut part);
        let mut part: Vec<u8> = self.tag_buffer.serialize();
        buf.append(&mut part);
        buf
    }
}

/// The model of the answer to a DescribeTopicPartitions request: one
/// unknown-topic entry per requested topic, no throttle, no next cursor,
/// under a v1 response header.
pub open spec fn spec_dtp_answer(correlation_id: i32, topics: Option<Seq<TopicRequestV>>)
    -> crate::response::ResponseV {
    crate::response::ResponseV {
        header: crate::header::ResponseHeaderV::V1 { correlation_id, tag_buffer: Seq::empty() },
        body: crate::body::ResponseBodyV::DescribeTopicPartitions(
            DescribeTopicPartitionsResponseV {
                throttle_time: 0,
                topics: Some(
                    match topics {
                        None => Seq::empty(),
                        Some(ts) => spec_unknown_topics(ts),
                    },
                ),
                next_cursor: None,
                tag_buffer: Seq::empty(),
            },
        ),
    }
}

impl DescribeTopicPartitionsRequest {
    /// Answers a DescribeTopicPartitions request: every requested topic is
    /// reported as unknown. A response is always produced.
    pub fn handle_request(self, correlation_id: i32) -> (r: Option<crate::response::Response>)
        requires
            Self::m_wf(self@),
        ensures
            r matches Some(resp) && resp@ == spec_dtp_answer(correlation_id, self@.topics),
            r matches Some(resp) && crate::response::spec_response_wf(resp@),
    {
        let ghost req_topics = self@.topics;
        let mut entries: Vec<TopicResponse> = Vec::new();
        match self.topics.0 {
            None => {
                proof {
                    assert(crate::primitive::seq_views(entries@) =~= Seq::<
                        TopicResponseV,
                    >::empty());
                }
            },
            Some(topics) => {
                let ghost topic_views = crate::primitive::seq_views(topics@);
                let mut i: usize = 0;
                while i < topics.len()
                    invariant
                        0 <= i <= topics@.len(),
                        topic_views == crate::primitive::seq_views(topics@),
                        req_topics == Some::<Seq<TopicRequestV>>(topic_views),
                        CompactArray::<TopicRequest>::m_wf(req_topics),
                        entries@.len() == i,
                        crate::primitive::seq_views(entries@) =~= spec_unknown_topics(
                            topic_views.take(i as int),
                        ),
                        forall|j: int| 0 <= j < entries@.len() ==> TopicResponse::m_wf(
                            #[trigger] entries@[j]@,
                        ),
                    decreases topics@.len() - i,
                {
                    proof {
                        assert(topic_views[i as int] == topics@[i as int]@);
                    }
                    let entry: TopicResponse = match &topics[i].name.0 {
                        None => {
                            let e = TopicResponse {
                                error_code: 3,
                                name: CompactString(None),
                                topic_id: Uuid::nil(),
                                is_internal: false,
                                partitions: CompactArray(Some(Vec::new())),
                                topic_authorized_operations: 0,
                                tag_buffer: TagSection(None),
                            };
                            proof {
                                assert(e@.partitions matches Some(ps) && ps =~= Seq::<
                                    i16,
                                >::empty());
                                assert(e@.tag_buffer =~= Seq::<TagFieldV>::empty());
                                assert(e@ == spec_unknown_topic_for(topics@[i as int]@.name));
                            }
                            e
                        },
                        Some(name) => {
                            let e = TopicResponse::unknown_topic(clone_bytes(name));
                            proof {
                                assert(e@ == spec_unknown_topic_for(topics@[i as int]@.name));
                            }
                            e
                        },
                    };
                    entries.push(entry);
                    i = i + 1;
                    proof {
                        assert(topic_views.take(i as int) =~= topic_views.take(i - 1).push(
                            topic_views[i - 1],
                        ));
                        assert(spec_unknown_topics(topic_views.take(i as int))
                            =~= spec_unknown_topics(topic_views.take(i - 1)).push(
                            spec_unknown_topic_for(topic_views[i - 1].name),
                        ));
                        assert(crate::primitive::seq_views(entries@) =~= spec_unknown_topics(
                            topic_views.take(i as int),
                        ));
                    }
                }
                proof {
                    assert(topic_views.take(topics@.len() as int) =~= topic_views);
                }
            },
        }
        let body = DescribeTopicPartitionsResponse {
            throttle_time: 0,
            topics: CompactArray(Some(entries)),
            next_cursor: None,
            tag_buffer: TagSection(None),
        };
        let resp = crate::response::Response {
            header: crate::header::ResponseHeader::V1(
                crate::header::ResponseHeaderV1 {
                    correlation_id,
                    tag_buffer: TagSection(None),
                },
            ),
            body: crate::body::ResponseBody::DescribeTopicPartitions(body),
        };
        proof {
            assert(resp@.header->V1_tag_buffer =~= Seq::<TagFieldV>::empty());
            assert(resp@.body->DescribeTopicPartitions_0.tag_buffer =~= Seq::<
                TagFieldV,
            >::empty());
            assert(resp@ == spec_dtp_answer(correlation_id, req_topics));
        }
        Some(resp)
    }
}

} // verus!
