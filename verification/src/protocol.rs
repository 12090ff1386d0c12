//! Typed request and response messages of the framed IPC protocol.
//!
//! Wire tags are bare integers on the socket; here they are closed enums,
//! validated on decode. An unknown tag is a protocol error, never undefined
//! behaviour.

use vstd::prelude::*;

verus! {

/// Kind of a request sent by a host process.
#[derive(Clone, Copy, PartialEq, Eq, Structural, Debug)]
pub enum RequestType {
    /// Type of a server address request.
    ServerAddress,
    /// Type of a get string request.
    GetString,
    /// Type of a set string request.
    SetString,
}

/// Kind of a response sent back to a host process.
#[derive(Clone, Copy, PartialEq, Eq, Structural, Debug)]
pub enum ResponseType {
    /// Type of a response that returns a null.
    Null,
    /// Type of a response that returns a string.
    String,
    /// Type of response containing an error that impacts a single request.
    RequestError,
    /// Type of response containing an error causes the connection to close.
    ClosingError,
}

/// Wire tag of a request kind.
pub open spec fn spec_request_tag(t: RequestType) -> u32 {
    match t {
        RequestType::ServerAddress => 1,
        RequestType::GetString => 2,
        RequestType::SetString => 3,
    }
}

/// Request kind of a wire tag, if the tag is known.
pub open spec fn spec_request_of_tag(tag: u32) -> Option<RequestType> {
    if tag == 1 {
        Some(RequestType::ServerAddress)
    } else if tag == 2 {
        Some(RequestType::GetString)
    } else if tag == 3 {
        Some(RequestType::SetString)
    } else {
        None
    }
}

/// Wire tag of a response kind.
pub open spec fn spec_response_tag(t: ResponseType) -> u32 {
    match t {
        ResponseType::Null => 0,
        ResponseType::String => 1,
        ResponseType::RequestError => 2,
        ResponseType::ClosingError => 3,
    }
}

/// Response kind of a wire tag, if the tag is known.
pub open spec fn spec_response_of_tag(tag: u32) -> Option<ResponseType> {
    if tag == 0 {
        Some(ResponseType::Null)
    } else if tag == 1 {
        Some(ResponseType::String)
    } else if tag == 2 {
        Some(ResponseType::RequestError)
    } else if tag == 3 {
        Some(ResponseType::ClosingError)
    } else {
        None
    }
}

pub fn request_tag(t: RequestType) -> (r: u32)
    ensures
        r == spec_request_tag(t),
{
    match t {
        RequestType::ServerAddress => 1,
        RequestType::GetString => 2,
        RequestType::SetString => 3,
    }
}

pub fn request_of_tag(tag: u32) -> (r: Option<RequestType>)
    ensures
        r == spec_request_of_tag(tag),
{
    if tag == 1 {
        Some(RequestType::ServerAddress)
    } else if tag == 2 {
        Some(RequestType::GetString)
    } else if tag == 3 {
        Some(RequestType::SetString)
    } else {
        None
    }
}

pub fn response_tag(t: ResponseType) -> (r: u32)
    ensures
        r == spec_response_tag(t),
{
    match t {
        ResponseType::Null => 0,
        ResponseType::String => 1,
        ResponseType::RequestError => 2,
        ResponseType::ClosingError => 3,
    }
}

pub fn response_of_tag(tag: u32) -> (r: Option<ResponseType>)
    ensures
        r == spec_response_of_tag(tag),
{
    if tag == 0 {
        Some(ResponseType::Null)
    } else if tag == 1 {
        Some(ResponseType::String)
    } else if tag == 2 {
        Some(ResponseType::RequestError)
    } else if tag == 3 {
        Some(ResponseType::ClosingError)
    } else {
        None
    }
}

/// Round trip of a request tag: every kind decodes back to itself.
pub proof fn lemma_request_tag_round_trip(t: RequestType)
    ensures
        spec_request_of_tag(spec_request_tag(t)) == Some(t),
{
}

/// Round trip of a response tag: every kind decodes back to itself.
pub proof fn lemma_response_tag_round_trip(t: ResponseType)
    ensures
        spec_response_of_tag(spec_response_tag(t)) == Some(t),
{
}

/// A request from a host process: a caller-assigned correlation id, a
/// request kind, and an ordered sequence of byte-string arguments.
/// The callback index is echoed verbatim in the matching response.
#[derive(Clone, PartialEq, Eq, Debug)]
pub struct Request {
    pub callback_index: u32,
    pub request_type: RequestType,
    pub args: Vec<Vec<u8>>,
}

/// A response to a host process. A `Null` response carries no payload; a
/// `String` response carries the value; the error kinds carry error text.
#[derive(Clone, PartialEq, Eq, Debug)]
pub struct Response {
    pub callback_index: u32,
    pub response_type: ResponseType,
    pub payload: Vec<u8>,
}

/// Mathematical model of a request.
pub struct RequestModel {
    pub callback_index: u32,
    pub request_type: RequestType,
    pub args: Seq<Seq<u8>>,
}

/// Mathematical model of a response.
pub struct ResponseModel {
    pub callback_index: u32,
    pub response_type: ResponseType,
    pub payload: Seq<u8>,
}

impl View for Request {
    type V = RequestModel;

    open spec fn view(&self) -> RequestModel {
        RequestModel {
            callback_index: self.callback_index,
            request_type: self.request_type,
            args: self.args.deep_view(),
        }
    }
}

impl View for Response {
    type V = ResponseModel;

    open spec fn view(&self) -> ResponseModel {
        ResponseModel {
            callback_index: self.callback_index,
            response_type: self.response_type,
            payload: self.payload.view(),
        }
    }
}

/// A null response carries no payload.
pub open spec fn response_well_formed(r: ResponseModel) -> bool {
    r.response_type == ResponseType::Null ==> r.payload.len() == 0
}

} // verus!
