use rcomm::handler::{
    finish_with_read, plan_target, respond_bad_request, respond_server_error, respond_with_file,
};
use rcomm::http_request::HttpParseError;
use rcomm::routes::RouteTable;

fn sample_table() -> RouteTable {
    let mut table = RouteTable::new();
    table.insert("/".to_string(), "pages/index.html".to_string());
    table.insert("/howdy".to_string(), "pages/howdy/page.html".to_string());
    table.insert("/index.css".to_string(), "pages/index.css".to_string());
    table
}

#[test]
fn registered_route_is_served_with_200() {
    let table = sample_table();
    let (status, file) = plan_target(&table, "/howdy");
    assert_eq!(status, 200);
    assert_eq!(file, "pages/howdy/page.html");
}

#[test]
fn served_response_has_matching_content_length() {
    let table = sample_table();
    let (status, _file) = plan_target(&table, "/");
    let contents = b"<html>Hello! Hi from Rust!</html>".to_vec();
    let expected_len = contents.len();
    let resp = respond_with_file(status, contents);
    let cl = resp.try_get_header("content-length".to_string()).unwrap();
    assert_eq!(cl, expected_len.to_string());
    assert_eq!(resp.try_get_body().unwrap().len(), expected_len);
}

#[test]
fn unregistered_route_gets_404_with_fallback_body() {
    let table = sample_table();
    let (status, file) = plan_target(&table, "/does-not-exist");
    assert_eq!(status, 404);
    assert_eq!(file, "pages/not_found.html");
    let fallback = b"<h1>Uh oh!</h1>".to_vec();
    let resp = respond_with_file(status, fallback);
    let text = String::from_utf8(resp.as_bytes()).unwrap();
    assert!(text.starts_with("HTTP/1.1 404 Not Found\r\n"));
    assert!(text.contains("Uh oh!"));
}

#[test]
fn deep_unregistered_path_gets_404() {
    let table = sample_table();
    let (status, _) = plan_target(&table, "/a/b/c/d");
    assert_eq!(status, 404);
}

#[test]
fn trailing_slash_resolves_to_same_file() {
    let table = sample_table();
    let plain = plan_target(&table, "/howdy");
    let slashed = plan_target(&table, "/howdy/");
    assert_eq!(plain, slashed);
    assert_eq!(plain.0, 200);
}

#[test]
fn double_slash_resolves_like_root() {
    let table = sample_table();
    let root = plan_target(&table, "/");
    let doubled = plan_target(&table, "//");
    assert_eq!(root, doubled);
    assert_eq!(root.0, 200);
}

#[test]
fn ten_requests_to_root_all_succeed_independently() {
    let table = sample_table();
    for _ in 0..10 {
        let (status, file) = plan_target(&table, "/");
        assert_eq!(status, 200);
        assert_eq!(file, "pages/index.html");
    }
}

#[test]
fn parse_failures_map_to_400_responses() {
    for err in [
        HttpParseError::HeaderTooLong,
        HttpParseError::MissingHostHeader,
        HttpParseError::MalformedRequestLine,
        HttpParseError::IoError,
    ] {
        let resp = respond_bad_request(&err);
        let text = String::from_utf8(resp.as_bytes()).unwrap();
        assert!(text.starts_with("HTTP/1.1 400 \r\n"));
    }
}

#[test]
fn bad_request_body_names_the_failure() {
    let resp = respond_bad_request(&HttpParseError::MissingHostHeader);
    let text = String::from_utf8(resp.as_bytes()).unwrap();
    assert!(text.ends_with("Missing required Host header"));
}

#[test]
fn failed_file_read_degrades_to_500() {
    let resp = finish_with_read(200, None);
    let text = String::from_utf8(resp.as_bytes()).unwrap();
    assert!(text.starts_with("HTTP/1.1 500 Internal Server Error\r\n"));
    let direct = respond_server_error();
    assert_eq!(direct.try_get_body(), None);
}

#[test]
fn successful_read_keeps_planned_status() {
    let resp = finish_with_read(200, Some(b"ok".to_vec()));
    let text = String::from_utf8(resp.as_bytes()).unwrap();
    assert!(text.starts_with("HTTP/1.1 200 OK\r\n"));
    assert!(text.ends_with("ok"));
}
