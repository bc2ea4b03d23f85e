use rcomm::http_methods::HttpMethods;
use rcomm::http_request::{HttpParseError, HttpRequest};

#[test]
fn build_creates_request_with_correct_fields() {
    let req = HttpRequest::build(
        HttpMethods::GET,
        "/index".to_string(),
        "HTTP/1.1".to_string(),
    );
    assert_eq!(req.method.name(), "GET");
    assert_eq!(req.target, "/index");
    assert_eq!(req.version, "HTTP/1.1");
}

#[test]
fn http_request_add_header_stores_header() {
    let mut req = HttpRequest::build(
        HttpMethods::GET,
        "/".to_string(),
        "HTTP/1.1".to_string(),
    );
    req.add_header("Content-Type".to_string(), "text/html".to_string());
    let val = req.try_get_header("Content-Type".to_string());
    assert_eq!(val, Some("text/html".to_string()));
}

#[test]
fn http_request_try_get_header_returns_none_for_missing() {
    let req = HttpRequest::build(
        HttpMethods::GET,
        "/".to_string(),
        "HTTP/1.1".to_string(),
    );
    assert_eq!(req.try_get_header("Missing".to_string()), None);
}

#[test]
fn http_request_add_body_and_try_get_body() {
    let mut req = HttpRequest::build(
        HttpMethods::POST,
        "/submit".to_string(),
        "HTTP/1.1".to_string(),
    );
    let body = b"hello world".to_vec();
    req.add_body(body.clone());
    assert_eq!(req.try_get_body(), Some(body));
}

#[test]
fn http_request_try_get_body_returns_none_when_empty() {
    let req = HttpRequest::build(
        HttpMethods::GET,
        "/".to_string(),
        "HTTP/1.1".to_string(),
    );
    assert_eq!(req.try_get_body(), None);
}

#[test]
fn display_formats_request_line_and_headers() {
    let mut req = HttpRequest::build(
        HttpMethods::GET,
        "/path".to_string(),
        "HTTP/1.1".to_string(),
    );
    req.add_header("Host".to_string(), "localhost".to_string());
    let output = String::from_utf8(req.head_bytes()).unwrap();
    assert!(output.starts_with("GET /path HTTP/1.1\r\n"));
    assert!(output.contains("host: localhost\r\n"));
    assert!(output.ends_with("\r\n"));
}

#[test]
fn http_request_as_bytes_without_body() {
    let req = HttpRequest::build(
        HttpMethods::GET,
        "/".to_string(),
        "HTTP/1.1".to_string(),
    );
    let bytes = req.as_bytes();
    let text = String::from_utf8(bytes).unwrap();
    assert!(text.starts_with("GET / HTTP/1.1\r\n"));
}

#[test]
fn http_request_as_bytes_with_body() {
    let mut req = HttpRequest::build(
        HttpMethods::POST,
        "/data".to_string(),
        "HTTP/1.1".to_string(),
    );
    req.add_body(b"body content".to_vec());
    let bytes = req.as_bytes();
    let text = String::from_utf8(bytes).unwrap();
    assert!(text.starts_with("POST /data HTTP/1.1\r\n"));
    assert!(text.ends_with("body content"));
}

fn lines(raw: &[&str]) -> Vec<String> {
    raw.iter().map(|s| s.to_string()).collect()
}

#[test]
fn parse_head_parses_get_request() {
    let head = lines(&["GET /hello HTTP/1.1\r\n", "Host: localhost\r\n", "\r\n"]);
    let req = HttpRequest::parse_head(&head).unwrap();
    assert_eq!(req.method.name(), "GET");
    assert_eq!(req.target, "/hello");
    assert_eq!(req.version, "HTTP/1.1");
}

#[test]
fn parse_head_trims_header_ows() {
    let head = lines(&[
        "GET / HTTP/1.1\r\n",
        "Host:   localhost   \r\n",
        "X-Custom:  hello  \r\n",
        "\r\n",
    ]);
    let req = HttpRequest::parse_head(&head).unwrap();
    assert_eq!(req.try_get_header("host".to_string()), Some("localhost".to_string()));
    assert_eq!(req.try_get_header("x-custom".to_string()), Some("hello".to_string()));
}

#[test]
fn parse_head_handles_bare_lf() {
    let head = lines(&["GET / HTTP/1.1\n", "Host: localhost\n", "\n"]);
    let req = HttpRequest::parse_head(&head).unwrap();
    assert_eq!(req.method.name(), "GET");
    assert_eq!(req.target, "/");
    assert_eq!(req.try_get_header("host".to_string()), Some("localhost".to_string()));
}

#[test]
fn parse_head_rejects_oversized_header() {
    let long_value = "x".repeat(8193);
    let head = lines(&[
        "GET / HTTP/1.1\r\n",
        "Host: localhost\r\n",
        &format!("X-Big: {long_value}\r\n"),
        "\r\n",
    ]);
    let result = HttpRequest::parse_head(&head);
    assert!(result.is_err());
    assert!(matches!(result.unwrap_err(), HttpParseError::HeaderTooLong));
}

#[test]
fn parse_head_rejects_http11_without_host() {
    let head = lines(&["GET / HTTP/1.1\r\n", "\r\n"]);
    let result = HttpRequest::parse_head(&head);
    assert!(result.is_err());
    assert!(matches!(result.unwrap_err(), HttpParseError::MissingHostHeader));
}

#[test]
fn parse_head_rejects_oversized_request_line() {
    let long_target = "y".repeat(8193);
    let head = lines(&[&format!("GET /{long_target} HTTP/1.1\r\n"), "\r\n"]);
    let result = HttpRequest::parse_head(&head);
    assert!(matches!(result, Err(HttpParseError::HeaderTooLong)));
}

#[test]
fn parse_head_rejects_unknown_method() {
    let head = lines(&["FETCH / HTTP/1.1\r\n", "Host: h\r\n", "\r\n"]);
    let result = HttpRequest::parse_head(&head);
    assert!(matches!(result, Err(HttpParseError::MalformedRequestLine)));
}

#[test]
fn parse_head_rejects_short_request_line() {
    let head = lines(&["GET /only\r\n", "\r\n"]);
    let result = HttpRequest::parse_head(&head);
    assert!(matches!(result, Err(HttpParseError::MalformedRequestLine)));
}

#[test]
fn parse_head_stops_at_colonless_line() {
    let head = lines(&[
        "GET / HTTP/1.0\r\n",
        "Host: localhost\r\n",
        "no colon here\r\n",
        "Later: ignored\r\n",
    ]);
    let req = HttpRequest::parse_head(&head).unwrap();
    assert_eq!(req.try_get_header("host".to_string()), Some("localhost".to_string()));
    assert_eq!(req.try_get_header("later".to_string()), None);
}

#[test]
fn content_length_reads_header() {
    let head = lines(&["POST /form HTTP/1.1\r\n", "Host: h\r\n", "Content-Length: 9\r\n", "\r\n"]);
    let req = HttpRequest::parse_head(&head).unwrap();
    assert_eq!(req.content_length(), 9);
}

#[test]
fn content_length_zero_without_header() {
    let head = lines(&["GET / HTTP/1.1\r\n", "Host: h\r\n", "\r\n"]);
    let req = HttpRequest::parse_head(&head).unwrap();
    assert_eq!(req.content_length(), 0);
}

#[test]
fn content_length_zero_when_not_a_number() {
    let head = lines(&["GET / HTTP/1.1\r\n", "Host: h\r\n", "Content-Length: soon\r\n", "\r\n"]);
    let req = HttpRequest::parse_head(&head).unwrap();
    assert_eq!(req.content_length(), 0);
}

#[test]
fn duplicate_header_last_write_wins() {
    let head = lines(&["GET / HTTP/1.1\r\n", "Host: first\r\n", "Host: second\r\n", "\r\n"]);
    let req = HttpRequest::parse_head(&head).unwrap();
    assert_eq!(req.try_get_header("host".to_string()), Some("second".to_string()));
}

#[test]
fn parse_error_messages_name_the_failure() {
    assert_eq!(
        HttpParseError::HeaderTooLong.message(),
        "Header line exceeds maximum length"
    );
    assert_eq!(
        HttpParseError::MissingHostHeader.message(),
        "Missing required Host header"
    );
    assert_eq!(HttpParseError::MalformedRequestLine.message(), "Malformed request line");
}
