//! A small verified HTTP/1.1 toolkit: request parsing, response
//! serialization, and static route resolution for a file-serving server.
//!
//! The modules here hold everything that computes: the wire-format codec,
//! header storage, URL path normalization, and the decisions a connection
//! handler makes. Socket and filesystem plumbing lives outside the library
//! and hands plain values in and out.

pub mod handler;
pub mod http_methods;
pub mod http_request;
pub mod http_response;
pub mod routes;
pub mod strmap;
pub mod text;

use vstd::prelude::*;

verus! {

/// The longest request or header line the parser accepts, in bytes.
pub const MAX_HEADER_LINE_LEN: usize = 8192;

} // verus!
