//! The ApiVersions request (API key 18): API discovery.
//!
//! The server supports ApiVersions itself (versions 0 to 4) and
//! DescribeTopicPartitions (version 0 only). A request at version 4 is
//! answered with that table; any other version gets error code 35
//! (unsupported version) and an empty table.

use vstd::prelude::*;

use crate::body::{ResponseBody, ResponseBodyV};
use crate::header::{RequestHeader, ResponseHeader, ResponseHeaderV, ResponseHeaderV0};
use crate::primitive::{
    seq_views, spec_elems_enc, spec_i16_be, spec_i32_be, spec_uvarint_enc, Encode, TagFieldV,
    TagSection,
};
use crate::response::{Response, ResponseV};

verus! {

/// The model of one entry of the supported-API table.
pub ghost struct ApiVersionV {
    pub api_key: i16,
    pub min_version: i16,
    pub max_version: i16,
    pub tag_buffer: Seq<TagFieldV>,
}

/// One entry of the supported-API table: an API key and the version range
/// this broker accepts for it.
#[derive(Debug)]
pub struct ApiVersion {
    pub api_key: i16,
    pub min_version: i16,
    pub max_version: i16,
    pub tag_buffer: TagSection,
}

impl View for ApiVersion {
    type V = ApiVersionV;

    open spec fn view(&self) -> ApiVersionV {
        ApiVersionV {
            api_key: self.api_key,
            min_version: self.min_version,
            max_version: self.max_version,
            tag_buffer: self.tag_buffer@,
        }
    }
}

impl Encode for ApiVersion {
    open spec fn m_wf(m: ApiVersionV) -> bool {
        TagSection::m_wf(m.tag_buffer)
    }

    open spec fn m_enc(m: ApiVersionV) -> Seq<u8> {
        spec_i16_be(m.api_key) + spec_i16_be(m.min_version) + spec_i16_be(m.max_version)
            + TagSection::m_enc(m.tag_buffer)
    }

    fn serialize(&self) -> (r: Vec<u8>) {
        let mut buf: Vec<u8> = self.api_key.serialize();
        let mut part: Vec<u8> = self.min_version.serialize();
        buf.append(&mut part);
        let mut part: Vec<u8> = self.max_version.serialize();
        buf.append(&mut part);
        let mut part: Vec<u8> = self.tag_buffer.serialize();
        buf.append(&mut part);
        buf
    }
}

/// The model of an ApiVersions response body.
pub ghost struct ApiVersionsResponseV {
    pub error_code: i16,
    pub api_keys: Seq<ApiVersionV>,
    pub throttle_time_ms: i32,
    pub tag_buffer: Seq<TagFieldV>,
}

/// The encoding of an ApiVersions response body: error code, the table as a
/// compact array, throttle time, tags.
pub open spec fn spec_api_versions_response_enc(m: ApiVersionsResponseV) -> Seq<u8> {
    spec_i16_be(m.error_code) + spec_uvarint_enc(m.api_keys.len() + 1) + spec_elems_enc::<
        ApiVersion,
    >(m.api_keys) + spec_i32_be(m.throttle_time_ms) + TagSection::m_enc(m.tag_buffer)
}

pub open spec fn spec_api_versions_response_wf(m: ApiVersionsResponseV) -> bool {
    &&& m.api_keys.len() + 1 < 0x1_0000_0000
    &&& (forall|j: int| 0 <= j < m.api_keys.len() ==> ApiVersion::m_wf(#[trigger] m.api_keys[j]))
    &&& TagSection::m_wf(m.tag_buffer)
}

/// The body of an ApiVersions response.
#[derive(Debug)]
pub struct ApiVersionsResponse {
    pub error_code: i16,
    pub api_keys: Vec<ApiVersion>,
    pub throttle_time_ms: i32,
    pub tag_buffer: TagSection,
}

impl View for ApiVersionsResponse {
    type V = ApiVersionsResponseV;

    open spec fn view(&self) -> ApiVersionsResponseV {
        ApiVersionsResponseV {
            error_code: self.error_code,
            api_keys: seq_views(self.api_keys@),
            throttle_time_ms: self.throttle_time_ms,
            tag_buffer: self.tag_buffer@,
        }
    }
}

impl ApiVersionsResponse {
    pub fn serialize(&self) -> (r: Vec<u8>)
        requires
            spec_api_versions_response_wf(self@),
        ensures
            r@ == spec_api_versions_response_enc(self@),
    {
        proof {
            assert forall|j: int| 0 <= j < self.api_keys@.len() implies ApiVersion::m_wf(
                #[trigger] self.api_keys@[j]@,
            ) by {
                assert(seq_views(self.api_keys@)[j] == self.api_keys@[j]@);
            }
        }
        let mut buf: Vec<u8> = self.error_code.serialize();
        let count: u32 = self.api_keys.len() as u32 + 1;
        let mut part: Vec<u8> = crate::primitive::UnsignedVarint(count).serialize();
        buf.append(&mut part);
        let mut part: Vec<u8> = crate::primitive::serialize_elems(&self.api_keys);
        buf.append(&mut part);
        let mut part: Vec<u8> = self.throttle_time_ms.serialize();
        buf.append(&mut part);
        let mut part: Vec<u8> = self.tag_buffer.serialize();
        buf.append(&mut part);
        proof {
            assert(spec_uvarint_enc(count as nat) == spec_uvarint_enc(self@.api_keys.len() + 1));
            assert(buf@ =~= spec_api_versions_response_enc(self@));
        }
        buf
    }
}

/// The supported-API table of this broker, as a model value.
pub open spec fn spec_supported_api() -> Seq<ApiVersionV> {
    seq![
        ApiVersionV { api_key: 18, min_version: 0, max_version: 4, tag_buffer: Seq::empty() },
        ApiVersionV { api_key: 75, min_version: 0, max_version: 0, tag_buffer: Seq::empty() },
    ]
}

/// The model of the ApiVersions answer for a given request version: the
/// table and error code 0 at version 4, an empty table and error code 35
/// otherwise.
pub open spec fn spec_api_versions_answer(correlation_id: i32, api_version: i16) -> ResponseV {
    ResponseV {
        header: ResponseHeaderV::V0 { correlation_id },
        body: ResponseBodyV::ApiVersions(
            ApiVersionsResponseV {
                error_code: if api_version == 4 {
                    0
                } else {
                    35
                },
                api_keys: if api_version == 4 {
                    spec_supported_api()
                } else {
                    Seq::empty()
                },
                throttle_time_ms: 0,
                tag_buffer: Seq::empty(),
            },
        ),
    }
}

/// The ApiVersions request; its body carries nothing this scope reads, so
/// the handler works from the header alone.
pub struct ApiVersionsRequest;

impl ApiVersionsRequest {
    /// Builds the supported-API table.
    fn supported_api() -> (r: Vec<ApiVersion>)
        ensures
            seq_views(r@) =~= spec_supported_api(),
    {
        let mut table: Vec<ApiVersion> = Vec::new();
        table.push(
            ApiVersion { api_key: 18, min_version: 0, max_version: 4, tag_buffer: TagSection(None) },
        );
        table.push(
            ApiVersion { api_key: 75, min_version: 0, max_version: 0, tag_buffer: TagSection(None) },
        );
        proof {
            assert(seq_views(table@) =~= spec_supported_api());
        }
        table
    }

    /// Answers an ApiVersions request. A response is always produced, with a
    /// v0 header carrying the request's correlation id.
    pub fn handle_request(correlation_id: i32, request_header: RequestHeader) -> (r: Option<
        Response,
    >)
        ensures
            r matches Some(resp) && resp@ == spec_api_versions_answer(
                correlation_id,
                request_header@.api_version,
            ),
            r matches Some(resp) && crate::response::spec_response_wf(resp@),
    {
        let response_header = ResponseHeader::V0(ResponseHeaderV0 { correlation_id });
        let (error_code, api_keys): (i16, Vec<ApiVersion>) = if request_header.request_api_version
            == 4 {
            (0, Self::supported_api())
        } else {
            (35, Vec::new())
        };
        let response_body = ResponseBody::ApiVersions(
            ApiVersionsResponse {
                error_code,
                api_keys,
                throttle_time_ms: 0,
                tag_buffer: TagSection(None),
            },
        );
        let resp = Response { header: response_header, body: response_body };
        proof {
            if request_header@.api_version != 4 {
                assert(resp@.body->ApiVersions_0.api_keys =~= Seq::<ApiVersionV>::empty());
            }
            assert(resp@.body->ApiVersions_0.tag_buffer =~= Seq::<TagFieldV>::empty());
        }
        Some(resp)
    }
}

} // verus!
