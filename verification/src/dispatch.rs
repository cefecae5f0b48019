//! The dispatcher: from one length-stripped frame to at most one response
//! payload.
//!
//! A frame is parsed as a request header followed by a body. API key 18 is
//! answered by the ApiVersions handler, API key 75 by the
//! DescribeTopicPartitions handler, and any other key produces no response
//! at all while the connection stays open. A codec error is fatal to the
//! connection; the caller stops on it.

use vstd::prelude::*;

use crate::api_version::{spec_api_versions_answer, ApiVersionsRequest};
use crate::describe_topic_partitions::{spec_dtp_answer, DescribeTopicPartitionsRequest};
use crate::error::DecodeError;
use crate::header::{spec_request_header_dec, RequestHeader};
use crate::primitive::{spec_i32_be, spec_i32_dec, Encode, Serializable};
use crate::response::spec_response_enc;

verus! {

/// What the server sends back for one well-formed frame: the response
/// payload for a recognized API key, nothing for an unknown one, and the
/// decode error for a frame whose header or body is malformed.
#[verifier::opaque]
pub open spec fn spec_handle_frame(s: Seq<u8>) -> Result<Option<Seq<u8>>, DecodeError> {
    match spec_request_header_dec(s) {
        Err(e) => Err(e),
        Ok((h, n)) => if h.api_key == 18 {
            Ok(Some(spec_response_enc(spec_api_versions_answer(h.correlation_id, h.api_version))))
        } else if h.api_key == 75 {
            match crate::describe_topic_partitions::spec_dtp_request_dec(s.skip(n)) {
                Err(e) => Err(e),
                Ok((req, _)) => Ok(
                    Some(spec_response_enc(spec_dtp_answer(h.correlation_id, req.topics))),
                ),
            }
        } else {
            Ok(None)
        },
    }
}

/// Handles one frame (the bytes after the length prefix) and returns the
/// response payload to send, if any.
pub fn handle_frame(msg_buf: &[u8]) -> (r: Result<Option<Vec<u8>>, DecodeError>)
    ensures
        match r {
            Ok(out) => spec_handle_frame(msg_buf@) matches Ok(m) && (match (out, m) {
                (Some(p), Some(ps)) => p@ == ps,
                (None, None) => true,
                _ => false,
            }),
            Err(e) => spec_handle_frame(msg_buf@) == Err::<Option<Seq<u8>>, DecodeError>(e),
        },
{
    proof {
        reveal(spec_handle_frame);
    }
    let (request_header, request_body) = match RequestHeader::deserialize(msg_buf) {
        Ok(p) => p,
        Err(e) => {
            return Err(e);
        },
    };
    let correlation_id: i32 = request_header.correlation_id;
    if request_header.request_api_key == 18 {
        let resp = ApiVersionsRequest::handle_request(correlation_id, request_header).unwrap();
        Ok(Some(resp.to_be_bytes()))
    } else if request_header.request_api_key == 75 {
        let (request, _rest) = match DescribeTopicPartitionsRequest::deserialize(request_body) {
            Ok(p) => p,
            Err(e) => {
                return Err(e);
            },
        };
        let resp = request.handle_request(correlation_id).unwrap();
        Ok(Some(resp.to_be_bytes()))
    } else {
        Ok(None)
    }
}

/// The length-prefixed frame for a payload: a four-byte big-endian length
/// that does not count itself, then the payload.
pub open spec fn spec_frame(payload: Seq<u8>) -> Seq<u8> {
    spec_i32_be(payload.len() as i32) + payload
}

/// Wraps a response payload in its length prefix.
pub fn frame_message(payload: &Vec<u8>) -> (r: Vec<u8>)
    requires
        payload@.len() <= 0x7FFF_FFFF,
    ensures
        r@ == spec_frame(payload@),
{
    let len: i32 = payload.len() as i32;
    let mut buf: Vec<u8> = len.serialize();
    let mut body: Vec<u8> = vstd::slice::slice_to_vec(payload.as_slice());
    buf.append(&mut body);
    proof {
        assert(<i32 as Encode>::m_enc(len) == spec_i32_be(len));
    }
    buf
}

/// For every frame the dispatcher accepts it emits exactly one response
/// payload, or none exactly when the API key is neither 18 nor 75.
pub proof fn lemma_one_frame_per_request(s: Seq<u8>)
    ensures
        spec_handle_frame(s) matches Ok(out) ==> ((out is None) <==> (spec_request_header_dec(s)
            matches Ok(p) && p.0.api_key != 18 && p.0.api_key != 75)),
{
    reveal(spec_handle_frame);
}

/// The frame built for a payload carries a length prefix that decodes to
/// exactly the payload's byte count, and the payload follows unchanged.
pub proof fn lemma_frame_length(payload: Seq<u8>)
    requires
        payload.len() <= 0x7FFF_FFFF,
    ensures
        spec_i32_dec(spec_frame(payload)) == Ok::<(i32, int), DecodeError>(
            (payload.len() as i32, 4),
        ),
        spec_frame(payload).skip(4) == payload,
        spec_frame(payload).len() == payload.len() + 4,
{
    let len: i32 = payload.len() as i32;
    i32::lemma_round_trip(len, payload);
    assert(<i32 as Encode>::m_enc(len) == spec_i32_be(len));
    assert(<i32 as Serializable>::m_dec(spec_frame(payload)) == spec_i32_dec(spec_frame(payload)));
    assert(spec_frame(payload).skip(4) =~= payload);
}

/// Every emitted response payload opens with the correlation id of the
/// request it answers, in big-endian form.
pub proof fn lemma_response_correlation(s: Seq<u8>)
    ensures
        spec_handle_frame(s) matches Ok(Some(p)) ==> spec_request_header_dec(s) matches Ok(h)
            && p.take(4) == spec_i32_be(h.0.correlation_id) && p.len() >= 4,
{
    reveal(spec_handle_frame);
    match spec_handle_frame(s) {
        Ok(Some(p)) => {
            let h = spec_request_header_dec(s)->Ok_0.0;
            let c = h.correlation_id;
            if h.api_key == 18 {
                let m = spec_api_versions_answer(c, h.api_version);
                assert(crate::header::spec_response_header_enc(m.header) == spec_i32_be(c));
                assert(p.take(4) =~= spec_i32_be(c));
            } else {
                let req = crate::describe_topic_partitions::spec_dtp_request_dec(
                    s.skip(spec_request_header_dec(s)->Ok_0.1),
                )->Ok_0.0;
                let m = spec_dtp_answer(c, req.topics);
                assert(crate::header::spec_response_header_enc(m.header) == spec_i32_be(c)
                    + crate::primitive::TagSection::m_enc(m.header->V1_tag_buffer));
                assert(p.take(4) =~= spec_i32_be(c));
            }
        },
        _ => {},
    }
}

/// Two pipelined requests, handled in arrival order, yield responses whose
/// leading four bytes are the first and second request's correlation ids
/// respectively.
pub proof fn lemma_pipelined_correlations(f1: Seq<u8>, f2: Seq<u8>)
    ensures
        spec_handle_frame(f1) matches Ok(Some(p1)) ==> spec_request_header_dec(f1) matches Ok(h1)
            && p1.take(4) == spec_i32_be(h1.0.correlation_id),
        spec_handle_frame(f2) matches Ok(Some(p2)) ==> spec_request_header_dec(f2) matches Ok(h2)
            && p2.take(4) == spec_i32_be(h2.0.correlation_id),
{
    lemma_response_correlation(f1);
    lemma_response_correlation(f2);
}

} // verus!
