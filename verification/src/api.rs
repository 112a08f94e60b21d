//! The API layer the kernel exposes: the raw HTTP codec, the REST router
//! over it, the WebSocket frame codec, and the fixed handlers.

use vstd::prelude::*;

pub mod handlers;
pub mod http;
pub mod rest;
pub mod websocket;

verus! {

/// The request methods the API accepts.
#[derive(Clone, Copy, PartialEq, Eq, Structural, Debug)]
pub enum HttpMethod {
    GET,
    POST,
    PUT,
    DELETE,
}

/// A parsed API request: the path and header text are kept as raw bytes.
pub struct ApiRequest {
    pub path: Vec<u8>,
    pub method: HttpMethod,
    pub headers: Vec<(Vec<u8>, Vec<u8>)>,
    pub body: Option<Vec<u8>>,
}

/// An API response about to be serialized.
pub struct ApiResponse {
    pub status: u16,
    pub headers: Vec<(Vec<u8>, Vec<u8>)>,
    pub body: Option<Vec<u8>>,
}

} // verus!
