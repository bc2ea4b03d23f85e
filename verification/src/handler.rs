//! What the connection handler decides: which status and file a target
//! resolves to, and which response is written back, for a served file, a
//! parse failure, and a failed file read alike.

use vstd::prelude::*;
use vstd::utf8::encode_utf8;

use crate::http_request::{error_message, HttpParseError};
use crate::http_response::{
    content_length_ok, spec_status_phrase, HttpResponse, ResponseView,
};
use crate::routes::{clean_route, normalize, RouteTable};
use crate::strmap::{lemma_map_set, map_has, map_set, map_val, Entries};
use crate::text::dec_str;

verus! {

/// The file served when no route matches.
pub open spec fn not_found_file() -> Seq<char> {
    "pages/not_found.html"@
}

/// The status and file path a raw target resolves to: 200 and the mapped
/// file when its normalized form is registered, else 404 and the reserved
/// fallback file.
pub open spec fn spec_plan(routes: Entries, target: Seq<char>) -> (u16, Seq<char>) {
    let key = normalize(target);
    if map_has(routes, key) {
        (200, map_val(routes, key))
    } else {
        (404, not_found_file())
    }
}

/// Resolves a raw request target against the table.
pub fn plan_target(routes: &RouteTable, target: &str) -> (r: (u16, String))
    ensures
        r.0 == spec_plan(routes@, target@).0,
        r.1@ == spec_plan(routes@, target@).1,
{
    let key = clean_route(target.to_owned());
    match routes.get(key.as_str()) {
        Some(file) => (200, file),
        None => (404, String::from_str("pages/not_found.html")),
    }
}

/// The response that serves `contents` under `status`: HTTP/1.1, the
/// fixed phrase for the code, a correct `content-length`, and the
/// contents as body.
pub open spec fn spec_file_response(status: u16, contents: Seq<u8>) -> ResponseView {
    ResponseView {
        version: "HTTP/1.1"@,
        status_code: status,
        status_phrase: spec_status_phrase(status),
        headers: map_set(
            Seq::<(Seq<char>, Seq<char>)>::empty(),
            "content-length"@,
            dec_str(contents.len()),
        ),
        body: Some(contents),
    }
}

/// The bare response for a failure: HTTP/1.1, the code, no headers, no
/// body.
pub open spec fn spec_error_response(status: u16) -> ResponseView {
    ResponseView {
        version: "HTTP/1.1"@,
        status_code: status,
        status_phrase: spec_status_phrase(status),
        headers: Seq::<(Seq<char>, Seq<char>)>::empty(),
        body: None,
    }
}

/// Builds the response that serves a file's contents.
pub fn respond_with_file(status: u16, contents: Vec<u8>) -> (r: HttpResponse)
    ensures
        r@ == spec_file_response(status, contents@),
        content_length_ok(r@),
{
    let mut resp = HttpResponse::build(String::from_str("HTTP/1.1"), status);
    resp.add_body(contents);
    resp
}

/// Builds the 500 response a failed file read degrades to.
pub fn respond_server_error() -> (r: HttpResponse)
    ensures
        r@ == spec_error_response(500),
{
    HttpResponse::build(String::from_str("HTTP/1.1"), 500)
}

/// Builds the 400 response a parse failure is answered with; its body
/// names the failure.
pub fn respond_bad_request(err: &HttpParseError) -> (r: HttpResponse)
    ensures
        r@ == spec_file_response(400, encode_utf8(error_message(*err))),
        content_length_ok(r@),
{
    let mut resp = HttpResponse::build(String::from_str("HTTP/1.1"), 400);
    let text = err.message();
    resp.add_body(text.as_str().as_bytes_vec());
    resp
}

/// Turns the outcome of the file read into the response: the planned
/// status with the contents when the read succeeded, 500 with nothing
/// when it failed.
pub fn finish_with_read(status: u16, read: Option<Vec<u8>>) -> (r: HttpResponse)
    ensures
        match read {
            Some(contents) => r@ == spec_file_response(status, contents@),
            None => r@ == spec_error_response(500),
        },
{
    match read {
        Some(contents) => respond_with_file(status, contents),
        None => respond_server_error(),
    }
}

/// A target whose normalized form is registered is served with status
/// 200, the mapped file, and a `content-length` header holding exactly
/// the body's byte length.
pub proof fn lemma_registered_target_served(routes: Entries, target: Seq<char>, contents: Seq<u8>)
    requires
        map_has(routes, normalize(target)),
    ensures
        spec_plan(routes, target).0 == 200,
        spec_plan(routes, target).1 == map_val(routes, normalize(target)),
        spec_file_response(200, contents).status_code == 200,
        spec_file_response(200, contents).body == Some(contents),
        map_val(spec_file_response(200, contents).headers, "content-length"@) == dec_str(
            contents.len(),
        ),
        content_length_ok(spec_file_response(200, contents)),
{
    lemma_map_set(
        Seq::<(Seq<char>, Seq<char>)>::empty(),
        "content-length"@,
        dec_str(contents.len()),
        "content-length"@,
    );
}

/// A target whose normalized form is not registered is answered 404, with
/// the reserved fallback file's contents as the body.
pub proof fn lemma_unregistered_target_not_found(
    routes: Entries,
    target: Seq<char>,
    contents: Seq<u8>,
)
    requires
        !map_has(routes, normalize(target)),
    ensures
        spec_plan(routes, target).0 == 404,
        spec_plan(routes, target).1 == not_found_file(),
        spec_file_response(404, contents).status_code == 404,
        spec_file_response(404, contents).body == Some(contents),
        content_length_ok(spec_file_response(404, contents)),
{
    lemma_map_set(
        Seq::<(Seq<char>, Seq<char>)>::empty(),
        "content-length"@,
        dec_str(contents.len()),
        "content-length"@,
    );
}

/// The `content-length` header of a served response is no mere label: its
/// text parses back to exactly the body's byte length.
pub proof fn lemma_content_length_reads_back(status: u16, contents: Seq<u8>)
    requires
        contents.len() <= usize::MAX,
    ensures
        crate::text::parse_usize_spec(
            map_val(spec_file_response(status, contents).headers, "content-length"@),
        ) == Some(contents.len()),
{
    lemma_map_set(
        Seq::<(Seq<char>, Seq<char>)>::empty(),
        "content-length"@,
        dec_str(contents.len()),
        "content-length"@,
    );
    crate::text::lemma_dec_str_value(contents.len());
    let t = dec_str(contents.len());
    assert(t[0] != '+') by {
        assert(crate::text::is_digit(t[0]));
    }
}

/// A trailing slash on the target changes nothing about how it is
/// served: both forms resolve to the same status and file.
pub proof fn lemma_trailing_slash_same_plan(routes: Entries, target: Seq<char>)
    ensures
        spec_plan(routes, target.push('/')) == spec_plan(routes, target),
{
    crate::routes::lemma_trailing_slash(target);
}

} // verus!
