//! The outbound HTTP proxy helper's request and response shapes. The
//! network work is the unverified host's; these types and the method
//! default are what it is driven by.

use vstd::prelude::*;

verus! {

/// The methods the proxy helper accepts.
#[derive(Clone, Copy, Debug, PartialEq, Eq, Structural)]
pub enum HttpMethod {
    GET,
    POST,
    PUT,
    DELETE,
    HEAD,
}

/// The method a request uses when none is configured.
pub fn default_method() -> (r: HttpMethod)
    ensures
        r == HttpMethod::GET,
{
    HttpMethod::GET
}

/// Options for one proxied request; the timeout is in milliseconds.
#[derive(Clone, Debug)]
pub struct ProxyOptions {
    pub method: HttpMethod,
    pub body: Option<String>,
    pub headers: Option<Vec<(String, String)>>,
    pub timeout: Option<u64>,
}

/// What a proxied request answered.
#[derive(Clone, Debug)]
pub struct HTTPResponse {
    pub status: u16,
    pub status_text: String,
    pub headers: Vec<(String, String)>,
    pub body: String,
}

/// Whether the response body is read at all: a HEAD request has none.
pub fn response_body_allowed(method: HttpMethod) -> (r: bool)
    ensures
        r == !(method is HEAD),
{
    match method {
        HttpMethod::HEAD => false,
        _ => true,
    }
}

} // verus!
