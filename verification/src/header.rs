//! Request and response headers.
//!
//! Every request carries the same fixed header: API key, API version,
//! correlation id, a legacy (non-compact) nullable client id, and a tag
//! section. Responses carry one of two header forms: v0 is the bare
//! correlation id, v1 adds a tag section; which form a response uses is
//! decided by the API key of the request it answers.

use vstd::prelude::*;

use crate::error::DecodeError;
use crate::primitive::{
    read_bytes, spec_i16_dec, spec_i32_be, spec_i32_dec, spec_tag_section_dec, Encode,
    Serializable, TagFieldV, TagSection,
};

verus! {

/// The decoding of a legacy nullable string: a two-byte big-endian length,
/// where a negative length means null and `N >= 0` means `N` bytes of UTF-8
/// follow.
pub open spec fn spec_nullable_string_dec(s: Seq<u8>) -> Result<
    (Option<Seq<u8>>, int),
    DecodeError,
> {
    match spec_i16_dec(s) {
        Err(e) => Err(e),
        Ok((l, n)) => if l < 0 {
            Ok((None, n))
        } else if s.skip(n).len() < l as int {
            Err(DecodeError::TruncatedInput)
        } else if !vstd::utf8::valid_utf8(s.skip(n).take(l as int)) {
            Err(DecodeError::InvalidUtf8)
        } else {
            Ok((Some(s.skip(n).take(l as int)), n + l))
        },
    }
}

/// Reads a legacy nullable string off the front of a slice.
fn nullable_string_deserialize(bytes: &[u8]) -> (r: Result<
    (Option<Vec<u8>>, &[u8]),
    DecodeError,
>)
    ensures
        match r {
            Ok(p) => spec_nullable_string_dec(bytes@) matches Ok((m, n)) && (match (p.0, m) {
                (Some(c), Some(mc)) => c@ == mc,
                (None, None) => true,
                _ => false,
            }) && 0 <= n <= bytes@.len() && p.1@ == bytes@.skip(n),
            Err(e) => spec_nullable_string_dec(bytes@) == Err::<
                (Option<Seq<u8>>, int),
                DecodeError,
            >(e),
        },
{
    let (l, rest1) = match i16::deserialize(bytes) {
        Ok(p) => p,
        Err(e) => {
            return Err(e);
        },
    };
    if l < 0 {
        return Ok((None, rest1));
    }
    match read_bytes(rest1, l as usize) {
        None => Err(DecodeError::TruncatedInput),
        Some((content, rest2)) => {
            if !crate::text::is_valid_utf8(content.as_slice()) {
                return Err(DecodeError::InvalidUtf8);
            }
            proof {
                assert(bytes@.skip(2).skip(l as int) =~= bytes@.skip(2 + l as int));
            }
            Ok((Some(content), rest2))
        },
    }
}

/// The model of a request header.
pub ghost struct RequestHeaderV {
    pub api_key: i16,
    pub api_version: i16,
    pub correlation_id: i32,
    pub client_id: Option<Seq<u8>>,
    pub tag_buffer: Seq<TagFieldV>,
}

/// The decoding of a request header; what remains after it is the request
/// body. Opaque so that this large definition only enters proofs that
/// `reveal` it.
#[verifier::opaque]
pub open spec fn spec_request_header_dec(s: Seq<u8>) -> Result<
    (RequestHeaderV, int),
    DecodeError,
> {
    match spec_i16_dec(s) {
        Err(e) => Err(e),
        Ok((api_key, n1)) => match spec_i16_dec(s.skip(n1)) {
            Err(e) => Err(e),
            Ok((api_version, n2)) => match spec_i32_dec(s.skip(n1 + n2)) {
                Err(e) => Err(e),
                Ok((correlation_id, n3)) => match spec_nullable_string_dec(s.skip(n1 + n2 + n3)) {
                    Err(e) => Err(e),
                    Ok((client_id, n4)) => match spec_tag_section_dec(
                        s.skip(n1 + n2 + n3 + n4),
                    ) {
                        Err(e) => Err(e),
                        Ok((tag_buffer, n5)) => Ok(
                            (
                                RequestHeaderV {
                                    api_key,
                                    api_version,
                                    correlation_id,
                                    client_id,
                                    tag_buffer,
                                },
                                n1 + n2 + n3 + n4 + n5,
                            ),
                        ),
                    },
                },
            },
        },
    }
}

/// The fixed header that opens every request.
#[derive(Debug)]
pub struct RequestHeader {
    pub request_api_key: i16,
    pub request_api_version: i16,
    pub correlation_id: i32,
    pub client_id: Option<Vec<u8>>,
    pub tag_buffer: TagSection,
}

impl View for RequestHeader {
    type V = RequestHeaderV;

    open spec fn view(&self) -> RequestHeaderV {
        RequestHeaderV {
            api_key: self.request_api_key,
            api_version: self.request_api_version,
            correlation_id: self.correlation_id,
            client_id: match self.client_id {
                None => None,
                Some(c) => Some(c@),
            },
            tag_buffer: self.tag_buffer@,
        }
    }
}

impl RequestHeader {
    /// Parses a request header; the returned slice is the request body.
    pub fn deserialize(msg_buf: &[u8]) -> (r: Result<(Self, &[u8]), DecodeError>)
        ensures
            match r {
                Ok(p) => spec_request_header_dec(msg_buf@) matches Ok((m, n)) && p.0@ == m && 0
                    <= n <= msg_buf@.len() && p.1@ == msg_buf@.skip(n),
                Err(e) => spec_request_header_dec(msg_buf@) == Err::<
                    (RequestHeaderV, int),
                    DecodeError,
                >(e),
            },
    {
        proof {
            reveal(spec_request_header_dec);
        }
        let (api_key, rest1) = match i16::deserialize(msg_buf) {
            Ok(p) => p,
            Err(e) => {
                return Err(e);
            },
        };
        let (api_version, rest2) = match i16::deserialize(rest1) {
            Ok(p) => p,
            Err(e) => {
                return Err(e);
            },
        };
        proof {
            assert(msg_buf@.skip(2).skip(2) =~= msg_buf@.skip(4));
        }
        let (correlation_id, rest3) = match i32::deserialize(rest2) {
            Ok(p) => p,
            Err(e) => {
                return Err(e);
            },
        };
        proof {
            assert(msg_buf@.skip(4).skip(4) =~= msg_buf@.skip(8));
        }
        let (client_id, rest4) = match nullable_string_deserialize(rest3) {
            Ok(p) => p,
            Err(e) => {
                return Err(e);
            },
        };
        let ghost n4 = spec_nullable_string_dec(msg_buf@.skip(8))->Ok_0.1;
        proof {
            assert(msg_buf@.skip(8).skip(n4) =~= msg_buf@.skip(8 + n4));
        }
        let (tag_buffer, body) = match TagSection::deserialize(rest4) {
            Ok(p) => p,
            Err(e) => {
                return Err(e);
            },
        };
        let ghost n5 = spec_tag_section_dec(msg_buf@.skip(8 + n4))->Ok_0.1;
        proof {
            assert(msg_buf@.skip(8 + n4).skip(n5) =~= msg_buf@.skip(8 + n4 + n5));
        }
        Ok(
            (
                RequestHeader {
                    request_api_key: api_key,
                    request_api_version: api_version,
                    correlation_id,
                    client_id,
                    tag_buffer,
                },
                body,
            ),
        )
    }
}

/// The model of a response header, in either of its two forms.
pub ghost enum ResponseHeaderV {
    V0 { correlation_id: i32 },
    V1 { correlation_id: i32, tag_buffer: Seq<TagFieldV> },
}

/// The encoding of a response header: the correlation id, plus a tag
/// section in the v1 form.
pub open spec fn spec_response_header_enc(m: ResponseHeaderV) -> Seq<u8> {
    match m {
        ResponseHeaderV::V0 { correlation_id } => spec_i32_be(correlation_id),
        ResponseHeaderV::V1 { correlation_id, tag_buffer } => spec_i32_be(correlation_id)
            + TagSection::m_enc(tag_buffer),
    }
}

pub open spec fn spec_response_header_wf(m: ResponseHeaderV) -> bool {
    match m {
        ResponseHeaderV::V0 { .. } => true,
        ResponseHeaderV::V1 { tag_buffer, .. } => TagSection::m_wf(tag_buffer),
    }
}

/// A response header in the v0 form: the bare correlation id.
#[derive(Debug)]
pub struct ResponseHeaderV0 {
    pub correlation_id: i32,
}

/// A response header in the v1 form: correlation id plus tag section.
#[derive(Debug)]
pub struct ResponseHeaderV1 {
    pub correlation_id: i32,
    pub tag_buffer: TagSection,
}

/// A response header; the form is selected by the API key of the request.
#[derive(Debug)]
pub enum ResponseHeader {
    V0(ResponseHeaderV0),
    V1(ResponseHeaderV1),
}

impl View for ResponseHeader {
    type V = ResponseHeaderV;

    open spec fn view(&self) -> ResponseHeaderV {
        match self {
            ResponseHeader::V0(h) => ResponseHeaderV::V0 { correlation_id: h.correlation_id },
            ResponseHeader::V1(h) => ResponseHeaderV::V1 {
                correlation_id: h.correlation_id,
                tag_buffer: h.tag_buffer@,
            },
        }
    }
}

impl ResponseHeader {
    pub fn serialize(&self) -> (r: Vec<u8>)
        requires
            spec_response_header_wf(self@),
        ensures
            r@ == spec_response_header_enc(self@),
    {
        match self {
            ResponseHeader::V0(h) => h.correlation_id.serialize(),
            ResponseHeader::V1(h) => {
                let mut buf: Vec<u8> = h.correlation_id.serialize();
                let mut tail: Vec<u8> = h.tag_buffer.serialize();
                buf.append(&mut tail);
                buf
            },
        }
    }
}

} // verus!
