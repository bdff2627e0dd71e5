use alternator_driver::http::Request;
use alternator_driver::optimize_headers::strip_headers;

fn request_with_headers() -> Request {
    let mut request = Request::empty();
    request.headers.insert("host", "localhost:8000");
    request
        .headers
        .insert("x-amz-target", "DynamoDB_20120810.PutItem");
    request.headers.insert("content-length", "10");
    request.headers.insert("accept-encoding", "gzip");
    request.headers.insert("content-encoding", "gzip");
    request.headers.insert("authorization", "signature");
    request.headers.insert("x-amz-date", "20260626T120000Z");
    request.headers.insert("user-agent", "test");
    request.headers.insert("amz-sdk-request", "attempt=1");
    request
}

#[test]
fn no_auth_allowlist_drops_auth_headers_and_keeps_compression_headers() {
    let mut request = request_with_headers();

    strip_headers(&mut request, false);

    assert!(request.headers.contains_key("host"));
    assert!(request.headers.contains_key("x-amz-target"));
    assert!(request.headers.contains_key("content-length"));
    assert!(request.headers.contains_key("accept-encoding"));
    assert!(request.headers.contains_key("content-encoding"));
    assert!(!request.headers.contains_key("authorization"));
    assert!(!request.headers.contains_key("x-amz-date"));
    assert!(!request.headers.contains_key("user-agent"));
    assert!(!request.headers.contains_key("amz-sdk-request"));
}

#[test]
fn signed_allowlist_preserves_auth_headers_and_compression_headers() {
    let mut request = request_with_headers();

    strip_headers(&mut request, true);

    assert!(request.headers.contains_key("host"));
    assert!(request.headers.contains_key("x-amz-target"));
    assert!(request.headers.contains_key("content-length"));
    assert!(request.headers.contains_key("accept-encoding"));
    assert!(request.headers.contains_key("content-encoding"));
    assert!(request.headers.contains_key("authorization"));
    assert!(request.headers.contains_key("x-amz-date"));
    assert!(!request.headers.contains_key("user-agent"));
    assert!(!request.headers.contains_key("amz-sdk-request"));
}

#[test]
fn stripping_again_changes_nothing() {
    let mut once = request_with_headers();
    strip_headers(&mut once, true);
    let mut twice = request_with_headers();
    strip_headers(&mut twice, true);
    strip_headers(&mut twice, true);
    assert_eq!(once.headers.len(), 7);
    assert_eq!(twice.headers.len(), 7);
    for i in 0..7 {
        assert_eq!(once.headers.name_at(i), twice.headers.name_at(i));
        assert_eq!(once.headers.value_at(i), twice.headers.value_at(i));
    }
}

#[test]
fn the_case_of_header_names_is_ignored() {
    let mut request = Request::empty();
    request.headers.append("X-Amz-Target", "t");
    request.headers.append("x-amz-TARGET", "u");
    request.headers.append("X-Other", "o");
    assert_eq!(request.headers.name_at(0), "x-amz-target");
    assert_eq!(request.headers.get("x-amz-target"), Some("t"));
    assert_eq!(request.headers.get_all("X-AMZ-TARGET"), vec!["t", "u"]);
    assert!(request.headers.contains_key("X-other"));
    strip_headers(&mut request, false);
    assert_eq!(request.headers.len(), 2);
    request.headers.insert("X-AMZ-Target", "v");
    assert_eq!(request.headers.get_all("x-amz-target"), vec!["v"]);
    request.headers.remove("X-Amz-Target");
    assert_eq!(request.headers.len(), 0);
}
