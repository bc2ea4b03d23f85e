use rcomm::http_methods::http_method_from_string;

#[test]
fn parses_uppercase_methods() {
    assert!(http_method_from_string("GET").is_some());
    assert!(http_method_from_string("POST").is_some());
    assert!(http_method_from_string("DELETE").is_some());
}

#[test]
fn rejects_non_uppercase_methods() {
    assert_eq!(http_method_from_string("get"), None);
    assert_eq!(http_method_from_string("Get"), None);
    assert_eq!(http_method_from_string("post"), None);
    assert_eq!(http_method_from_string("Post"), None);
}

#[test]
fn method_names_round_trip() {
    for name in ["GET", "HEAD", "POST", "PUT", "DELETE", "CONNECT", "OPTIONS", "TRACE", "PATCH"] {
        let m = http_method_from_string(name).unwrap();
        assert_eq!(m.name(), name);
    }
}
