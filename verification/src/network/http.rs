//! The request and response values the packet stack's REST server routes
//! on: method, path, headers and body, with a closed set of status codes.

use vstd::prelude::*;

verus! {

/// The request methods the server routes on.
#[derive(Clone, Copy, PartialEq, Eq, Structural, Debug)]
pub enum Method {
    Get,
    Post,
    Put,
    Delete,
}

/// The status codes the handlers answer with.
#[derive(Clone, Copy, PartialEq, Eq, Structural, Debug)]
pub enum StatusCode {
    OK,
    Created,
    Accepted,
    BadRequest,
    NotFound,
    InternalServerError,
}

/// A request as the server sees it.
pub struct Request {
    pub method: Method,
    pub path: String,
    pub headers: Vec<(String, String)>,
    pub body: Vec<u8>,
}

/// A response as a handler produces it.
pub struct Response {
    pub status: StatusCode,
    pub headers: Vec<(String, String)>,
    pub body: Vec<u8>,
}

} // verus!
