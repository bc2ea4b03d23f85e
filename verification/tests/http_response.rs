use rcomm::http_response::HttpResponse;

#[test]
fn build_creates_response_with_correct_fields() {
    let resp = HttpResponse::build("HTTP/1.1".to_string(), 200);
    let output = String::from_utf8(resp.head_bytes()).unwrap();
    assert!(output.starts_with("HTTP/1.1 200 OK\r\n"));
}

#[test]
fn build_sets_status_phrase_for_404() {
    let resp = HttpResponse::build("HTTP/1.1".to_string(), 404);
    let output = String::from_utf8(resp.head_bytes()).unwrap();
    assert!(output.starts_with("HTTP/1.1 404 Not Found\r\n"));
}

#[test]
fn build_sets_status_phrase_for_500() {
    let resp = HttpResponse::build("HTTP/1.1".to_string(), 500);
    let output = String::from_utf8(resp.head_bytes()).unwrap();
    assert!(output.starts_with("HTTP/1.1 500 Internal Server Error\r\n"));
}

#[test]
fn http_response_add_header_stores_header() {
    let mut resp = HttpResponse::build("HTTP/1.1".to_string(), 200);
    resp.add_header("Content-Type".to_string(), "text/html".to_string());
    let val = resp.try_get_header("Content-Type".to_string());
    assert_eq!(val, Some("text/html".to_string()));
}

#[test]
fn http_response_try_get_header_returns_none_for_missing() {
    let resp = HttpResponse::build("HTTP/1.1".to_string(), 200);
    assert_eq!(resp.try_get_header("Missing".to_string()), None);
}

#[test]
fn http_response_add_body_and_try_get_body() {
    let mut resp = HttpResponse::build("HTTP/1.1".to_string(), 200);
    let body = b"<h1>Hello</h1>".to_vec();
    resp.add_body(body.clone());
    assert_eq!(resp.try_get_body(), Some(body));
}

#[test]
fn http_response_try_get_body_returns_none_when_empty() {
    let resp = HttpResponse::build("HTTP/1.1".to_string(), 200);
    assert_eq!(resp.try_get_body(), None);
}

#[test]
fn display_formats_status_line_and_headers() {
    let mut resp = HttpResponse::build("HTTP/1.1".to_string(), 200);
    resp.add_header("Server".to_string(), "rcomm".to_string());
    let output = String::from_utf8(resp.head_bytes()).unwrap();
    assert!(output.starts_with("HTTP/1.1 200 OK\r\n"));
    assert!(output.contains("server: rcomm\r\n"));
    assert!(output.ends_with("\r\n"));
}

#[test]
fn http_response_as_bytes_without_body() {
    let resp = HttpResponse::build("HTTP/1.1".to_string(), 200);
    let bytes = resp.as_bytes();
    let text = String::from_utf8(bytes).unwrap();
    assert!(text.starts_with("HTTP/1.1 200 OK\r\n"));
    assert!(text.ends_with("\r\n"));
}

#[test]
fn http_response_as_bytes_with_body() {
    let mut resp = HttpResponse::build("HTTP/1.1".to_string(), 200);
    resp.add_body(b"body here".to_vec());
    let bytes = resp.as_bytes();
    let text = String::from_utf8(bytes).unwrap();
    assert!(text.starts_with("HTTP/1.1 200 OK\r\n"));
    assert!(text.ends_with("body here"));
}

#[test]
fn add_header_chaining() {
    let mut resp = HttpResponse::build("HTTP/1.1".to_string(), 200);
    resp.add_header("A".to_string(), "1".to_string());
    resp.add_header("B".to_string(), "2".to_string());
    let output = String::from_utf8(resp.head_bytes()).unwrap();
    assert!(output.contains("a: 1\r\n"));
    assert!(output.contains("b: 2\r\n"));
}

#[test]
fn unknown_status_code_has_empty_phrase() {
    let resp = HttpResponse::build("HTTP/1.1".to_string(), 999);
    let output = String::from_utf8(resp.head_bytes()).unwrap();
    assert!(output.starts_with("HTTP/1.1 999 \r\n"));
}

#[test]
fn add_body_auto_sets_content_length() {
    let mut resp = HttpResponse::build("HTTP/1.1".to_string(), 200);
    resp.add_body(b"hello world".to_vec());
    assert_eq!(
        resp.try_get_header("content-length".to_string()),
        Some("11".to_string())
    );
}

#[test]
fn serialized_headers_follow_storage_order() {
    let mut resp = HttpResponse::build("HTTP/1.1".to_string(), 200);
    resp.add_header("First".to_string(), "1".to_string());
    resp.add_header("Second".to_string(), "2".to_string());
    resp.add_header("First".to_string(), "replaced".to_string());
    let output = String::from_utf8(resp.head_bytes()).unwrap();
    let first = output.find("first: replaced\r\n").unwrap();
    let second = output.find("second: 2\r\n").unwrap();
    assert!(first < second);
}
