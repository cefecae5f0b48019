//! A complete response: header plus body. The outer framing layer prepends
//! the length prefix.

use vstd::prelude::*;

use crate::body::{spec_response_body_enc, spec_response_body_wf, ResponseBody, ResponseBodyV};
use crate::header::{
    spec_response_header_enc, spec_response_header_wf, ResponseHeader, ResponseHeaderV,
};

verus! {

/// The model of a complete response.
pub ghost struct ResponseV {
    pub header: ResponseHeaderV,
    pub body: ResponseBodyV,
}

/// The encoding of a complete response: header bytes, then body bytes.
pub open spec fn spec_response_enc(m: ResponseV) -> Seq<u8> {
    spec_response_header_enc(m.header) + spec_response_body_enc(m.body)
}

pub open spec fn spec_response_wf(m: ResponseV) -> bool {
    spec_response_header_wf(m.header) && spec_response_body_wf(m.body)
}

/// A response ready to be framed and written.
#[derive(Debug)]
pub struct Response {
    pub header: ResponseHeader,
    pub body: ResponseBody,
}

impl View for Response {
    type V = ResponseV;

    open spec fn view(&self) -> ResponseV {
        ResponseV { header: self.header@, body: self.body@ }
    }
}

impl Response {
    /// The payload of this response: every byte after the length prefix.
    pub fn to_be_bytes(&self) -> (r: Vec<u8>)
        requires
            spec_response_wf(self@),
        ensures
            r@ == spec_response_enc(self@),
    {
        let mut buf: Vec<u8> = self.header.serialize();
        let mut body: Vec<u8> = self.body.serialize();
        buf.append(&mut body);
        buf
    }
}

} // verus!
