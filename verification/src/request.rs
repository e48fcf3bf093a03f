//! A request in its parts.

use std::collections::HashMap;
use vstd::prelude::*;

verus! {

/// A request as its three parts: the request line, the headers, and the
/// body where there is one.
pub struct Request {
    pub request_line: String,
    pub headers: HashMap<String, String>,
    pub body: Option<String>,
}

impl Request {
    /// The request made of the three given parts, each kept as it is.
    pub fn new(request_line: String, headers: HashMap<String, String>, body: Option<String>) -> (r:
        Request)
        ensures
            r.request_line == request_line,
            r.headers == headers,
            r.body == body,
    {
        Request { request_line, headers, body }
    }
}

} // verus!
