//! The closed set of request methods and their wire names.

use vstd::prelude::*;

use crate::text::str_eq;

verus! {

/// The nine request methods the parser recognizes, matched case-exactly.
#[derive(Clone, Copy, Debug, PartialEq, Eq, Structural)]
pub enum HttpMethods {
    GET,
    HEAD,
    POST,
    PUT,
    DELETE,
    CONNECT,
    OPTIONS,
    TRACE,
    PATCH,
}

/// The wire name of a method.
pub open spec fn method_str(m: HttpMethods) -> Seq<char> {
    match m {
        HttpMethods::GET => "GET"@,
        HttpMethods::HEAD => "HEAD"@,
        HttpMethods::POST => "POST"@,
        HttpMethods::PUT => "PUT"@,
        HttpMethods::DELETE => "DELETE"@,
        HttpMethods::CONNECT => "CONNECT"@,
        HttpMethods::OPTIONS => "OPTIONS"@,
        HttpMethods::TRACE => "TRACE"@,
        HttpMethods::PATCH => "PATCH"@,
    }
}

/// Which method a token names, if any; the spelling must match exactly.
pub open spec fn method_of(s: Seq<char>) -> Option<HttpMethods> {
    if s == "GET"@ {
        Some(HttpMethods::GET)
    } else if s == "HEAD"@ {
        Some(HttpMethods::HEAD)
    } else if s == "POST"@ {
        Some(HttpMethods::POST)
    } else if s == "PUT"@ {
        Some(HttpMethods::PUT)
    } else if s == "DELETE"@ {
        Some(HttpMethods::DELETE)
    } else if s == "CONNECT"@ {
        Some(HttpMethods::CONNECT)
    } else if s == "OPTIONS"@ {
        Some(HttpMethods::OPTIONS)
    } else if s == "TRACE"@ {
        Some(HttpMethods::TRACE)
    } else if s == "PATCH"@ {
        Some(HttpMethods::PATCH)
    } else {
        None
    }
}

/// Reads a method token; anything but the nine exact names is rejected.
pub fn http_method_from_string(method: &str) -> (r: Option<HttpMethods>)
    ensures
        r == method_of(method@),
{
    if str_eq(method, "GET") {
        Some(HttpMethods::GET)
    } else if str_eq(method, "HEAD") {
        Some(HttpMethods::HEAD)
    } else if str_eq(method, "POST") {
        Some(HttpMethods::POST)
    } else if str_eq(method, "PUT") {
        Some(HttpMethods::PUT)
    } else if str_eq(method, "DELETE") {
        Some(HttpMethods::DELETE)
    } else if str_eq(method, "CONNECT") {
        Some(HttpMethods::CONNECT)
    } else if str_eq(method, "OPTIONS") {
        Some(HttpMethods::OPTIONS)
    } else if str_eq(method, "TRACE") {
        Some(HttpMethods::TRACE)
    } else if str_eq(method, "PATCH") {
        Some(HttpMethods::PATCH)
    } else {
        None
    }
}

impl HttpMethods {
    /// The method's wire name.
    pub fn name(&self) -> (r: &'static str)
        ensures
            r@ == method_str(*self),
    {
        match self {
            HttpMethods::GET => "GET",
            HttpMethods::HEAD => "HEAD",
            HttpMethods::POST => "POST",
            HttpMethods::PUT => "PUT",
            HttpMethods::DELETE => "DELETE",
            HttpMethods::CONNECT => "CONNECT",
            HttpMethods::OPTIONS => "OPTIONS",
            HttpMethods::TRACE => "TRACE",
            HttpMethods::PATCH => "PATCH",
        }
    }
}

} // verus!
