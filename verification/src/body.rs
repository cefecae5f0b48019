//! The response body, one variant per API key this broker answers.

use vstd::prelude::*;

use crate::api_version::{
    spec_api_versions_response_enc, spec_api_versions_response_wf, ApiVersionsResponse,
    ApiVersionsResponseV,
};
use crate::describe_topic_partitions::{
    DescribeTopicPartitionsResponse, DescribeTopicPartitionsResponseV,
};
use crate::primitive::Encode;

verus! {

/// The model of a response body.
pub ghost enum ResponseBodyV {
    ApiVersions(ApiVersionsResponseV),
    DescribeTopicPartitions(DescribeTopicPartitionsResponseV),
}

/// The encoding of a response body, by variant.
pub open spec fn spec_response_body_enc(m: ResponseBodyV) -> Seq<u8> {
    match m {
        ResponseBodyV::ApiVersions(b) => spec_api_versions_response_enc(b),
        ResponseBodyV::DescribeTopicPartitions(b) => DescribeTopicPartitionsResponse::m_enc(b),
    }
}

pub open spec fn spec_response_body_wf(m: ResponseBodyV) -> bool {
    match m {
        ResponseBodyV::ApiVersions(b) => spec_api_versions_response_wf(b),
        ResponseBodyV::DescribeTopicPartitions(b) => DescribeTopicPartitionsResponse::m_wf(b),
    }
}

/// A typed response body; the encoder dispatches on the variant.
#[derive(Debug)]
pub enum ResponseBody {
    ApiVersions(ApiVersionsResponse),
    DescribeTopicPartitions(DescribeTopicPartitionsResponse),
}

impl View for ResponseBody {
    type V = ResponseBodyV;

    open spec fn view(&self) -> ResponseBodyV {
        match self {
            ResponseBody::ApiVersions(b) => ResponseBodyV::ApiVersions(b@),
            ResponseBody::DescribeTopicPartitions(b) => ResponseBodyV::DescribeTopicPartitions(
                b@,
            ),
        }
    }
}

impl ResponseBody {
    pub fn serialize(&self) -> (r: Vec<u8>)
        requires
            spec_response_body_wf(self@),
        ensures
            r@ == spec_response_body_enc(self@),
    {
        match self {
            ResponseBody::ApiVersions(payload) => payload.serialize(),
            ResponseBody::DescribeTopicPartitions(payload) => payload.serialize(),
        }
    }
}

} // verus!
