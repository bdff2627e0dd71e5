use alternator_driver::http::{Headers, Request};
use alternator_driver::interceptors::{
    decode_order, AlternatorInterceptor, RequestState, ResponseHead,
};
use alternator_driver::json::Json;
use alternator_driver::live_nodes::NativeRoots;
use alternator_driver::node_url::{build_node_url, retarget, NodeUrl, RetargetError};
use alternator_driver::{
    AlternatorConfig, CompressionAlgorithm, CompressionLevel, LiveNodes, QueryPlan,
    RequestCompression, ResponseCompression, ResponseCompressionAlgorithm, UserAgent,
};

fn interceptor() -> AlternatorInterceptor {
    AlternatorInterceptor {
        request_compression: RequestCompression::disabled(),
        response_compression: ResponseCompression::disabled(),
        optimize_headers: true,
        user_agent: UserAgent::default(),
        preserve_auth_headers: false,
        preserve_float32_vectors: false,
    }
}

fn no_parse(_: &[u8]) -> Result<Json, String> {
    panic!("there is nothing to read")
}

fn no_write(_: &Json) -> Result<Vec<u8>, String> {
    panic!("there is nothing to write")
}

fn prepare(interceptor: &AlternatorInterceptor, state: &RequestState) -> Request {
    let mut request = Request::empty();
    request.body = Some(vec![b'x'; 2000]);
    interceptor
        .modify_before_retry_loop(&mut request, state, &no_parse, &no_write)
        .unwrap();
    request
}

// ----- Before the retry loop -----

#[test]
fn requests_are_left_alone_by_default() {
    let request = prepare(&interceptor(), &RequestState::new());
    assert_eq!(request.body, Some(vec![b'x'; 2000]));
    assert_eq!(request.headers.len(), 0);
}

#[test]
fn overrides_of_one_request_win_over_the_client() {
    let enabled = RequestCompression::enabled(
        CompressionAlgorithm::Gzip,
        CompressionLevel::default(),
        0,
    );
    let mut client = interceptor();
    client.request_compression = enabled;
    client.response_compression = ResponseCompression::enabled_all();
    let request = prepare(&client, &RequestState::new());
    assert_eq!(request.headers.get("content-encoding"), Some("gzip"));
    assert_eq!(
        request.headers.get("accept-encoding"),
        Some("gzip, deflate")
    );

    let mut state = RequestState::new();
    state.alternator_config_override(
        &AlternatorConfig::operation_builder()
            .request_compression(RequestCompression::disabled())
            .response_compression(ResponseCompression::disabled())
            .preserve_float32_vectors(true),
    );
    assert_eq!(state.preserve_float32_vectors, Some(true));
    let request = prepare(&client, &state);
    assert_eq!(request.headers.len(), 0);

    let mut state = RequestState::new();
    state.alternator_config_override(
        &AlternatorConfig::operation_builder()
            .request_compression(enabled)
            .response_compression(ResponseCompression::enabled(
                ResponseCompressionAlgorithm::Deflate,
            )),
    );
    let request = prepare(&interceptor(), &state);
    assert_eq!(request.headers.get("content-encoding"), Some("gzip"));
    assert_eq!(request.headers.get("accept-encoding"), Some("deflate"));
}

// ----- Before sending -----

fn signed_request() -> Request {
    let mut request = Request::empty();
    request.headers.insert("host", "localhost:8000");
    request.headers.insert("authorization", "signature");
    request.headers.insert("x-amz-date", "20260626T120000Z");
    request.headers.insert("user-agent", "aws-sdk-rust/1");
    request.headers.insert("amz-sdk-request", "attempt=1");
    request
}

#[test]
fn test_per_request_credentials_preserve_signed_headers() {
    let mut state = RequestState::new();
    let mut request = signed_request();
    interceptor().read_after_signing(&request, &mut state);
    assert_eq!(state.preserve_auth_headers, Some(true));
    interceptor()
        .modify_before_transmit(&mut request, &state)
        .unwrap();
    assert_eq!(request.headers.get("authorization"), Some("signature"));
    assert!(request.headers.contains_key("x-amz-date"));
    assert!(!request.headers.contains_key("amz-sdk-request"));
    assert_eq!(
        request.headers.get("user-agent"),
        Some("scylladb-alternator-client-rust/0.1.0")
    );
}

#[test]
fn test_without_credentials_drops_injected_auth_headers() {
    let mut state = RequestState::new();
    let mut request = Request::empty();
    request.headers.insert("authorization", "signature");
    // Without a date the request was not signed.
    interceptor().read_after_signing(&request, &mut state);
    assert_eq!(state.preserve_auth_headers, None);
    interceptor()
        .modify_before_transmit(&mut request, &state)
        .unwrap();
    assert!(!request.headers.contains_key("authorization"));
}

#[test]
fn headers_are_kept_where_they_are_not_optimized() {
    let mut plain = interceptor();
    plain.optimize_headers = false;
    plain.user_agent = UserAgent::disabled();
    let mut request = signed_request();
    plain
        .modify_before_transmit(&mut request, &RequestState::new())
        .unwrap();
    assert!(request.headers.contains_key("amz-sdk-request"));
    assert!(request.headers.contains_key("authorization"));
    assert!(!request.headers.contains_key("user-agent"));
    plain.user_agent = UserAgent::value("bad\u{1}agent");
    assert!(plain
        .modify_before_transmit(&mut request, &RequestState::new())
        .is_err());
}

// ----- The node of an attempt -----

fn live_nodes() -> LiveNodes {
    let config = AlternatorConfig::builder()
        .scheme("http")
        .port(8000)
        .seed_hosts(vec!["a".to_string(), "b".to_string()])
        .build();
    let roots = NativeRoots {
        usable: true,
        errors: Vec::new(),
    };
    LiveNodes::try_new(&config, &vec![false; 2], &roots, 0)
        .unwrap()
        .unwrap()
}

#[test]
fn each_attempt_goes_to_the_next_node() {
    let mut nodes = live_nodes();
    let mut plan = Some(QueryPlan::new_basic());
    let mut request = Request::empty();
    request.uri = "https://dynamodb.example.com/path?x=1".to_string();
    for expected in [
        "http://a:8000/path?x=1",
        "http://b:8000/path?x=1",
        // The plan is exhausted, and the request goes where it went.
        "http://b:8000/path?x=1",
    ] {
        interceptor()
            .modify_before_signing(&mut request, &mut plan, &mut nodes, 0)
            .unwrap();
        assert_eq!(request.uri, expected);
    }
}

#[test]
fn without_a_plan_a_request_goes_where_it_went() {
    let mut nodes = live_nodes();
    let mut request = Request::empty();
    request.uri = "not a URL".to_string();
    interceptor()
        .modify_before_signing(&mut request, &mut None, &mut nodes, 0)
        .unwrap();
    assert_eq!(request.uri, "not a URL");
    let error = interceptor()
        .modify_before_signing(&mut request, &mut Some(QueryPlan::new_basic()), &mut nodes, 0)
        .unwrap_err();
    assert!(matches!(error, RetargetError::InvalidUri(_)));
    assert_eq!(request.uri, "not a URL");
}

#[test]
fn urls_that_cannot_be_sent_to_a_node_are_refused() {
    let node = build_node_url("http", "a", false, Some(80)).unwrap();
    assert_eq!(
        retarget("http://x:8000/", &node),
        Ok("http://a/".to_string())
    );
    assert_eq!(
        retarget("mailto:x@example.com", &node),
        Err(RetargetError::CannotSetScheme)
    );
    let mut bad = node.duplicate();
    bad.host = Some("".to_string());
    assert_eq!(
        retarget("http://x:8000/", &bad),
        Err(RetargetError::CannotSetHost)
    );
    bad.scheme = "other".to_string();
    assert_eq!(
        retarget("foo://x/", &bad),
        Err(RetargetError::CannotSetPort)
    );
    bad.host = None;
    assert_eq!(
        retarget("foo://x?q", &bad),
        Err(RetargetError::CannotSetHost)
    );
    assert_eq!(
        retarget("http://x:8000/", &NodeUrl { host: None, ..node.duplicate() }),
        Err(RetargetError::CannotSetHost)
    );
    assert_eq!(RetargetError::CannotSetPort.message(), "cannot set port");
}

#[test]
fn long_hosts_are_sent_to() {
    let host = "a".repeat(1 << 20);
    let node = build_node_url("http", &host, false, Some(8000)).unwrap();
    assert_eq!(
        retarget("http://x/p?q", &node),
        Ok(format!("http://{host}:8000/p?q"))
    );
}

// ----- Responses -----

fn response(status: u16, encodings: &[&str]) -> ResponseHead {
    let mut headers = Headers::new();
    for encoding in encodings {
        headers.append("content-encoding", encoding);
    }
    headers.insert("content-length", "10");
    headers.insert("x-amz-crc32", "1");
    headers.insert("x-amz-checksum-crc64nvme", "1");
    headers.insert("x-amzn-requestid", "id");
    ResponseHead { status, headers }
}

#[test]
fn encodings_are_undone_last_one_first() {
    let mut head = response(500, &["gzip, , Deflate;q=1", "x-gzip"]);
    let plan = interceptor()
        .modify_before_deserialization(&mut head, &RequestState::new())
        .unwrap();
    assert_eq!(
        plan.decode,
        vec![
            ResponseCompressionAlgorithm::Gzip,
            ResponseCompressionAlgorithm::Deflate,
            ResponseCompressionAlgorithm::Gzip
        ]
    );
    assert!(plan.transform.is_none());
    assert!(!head.headers.contains_key("content-encoding"));
    assert!(!head.headers.contains_key("content-length"));
    // The checksums of a response that failed are left alone.
    assert!(head.headers.contains_key("x-amz-crc32"));
    assert_eq!(
        decode_order(&vec![
            ResponseCompressionAlgorithm::Gzip,
            ResponseCompressionAlgorithm::Deflate
        ]),
        vec![
            ResponseCompressionAlgorithm::Deflate,
            ResponseCompressionAlgorithm::Gzip
        ]
    );
}

#[test]
fn successful_responses_are_transformed_and_lose_their_checksums() {
    for status in [200, 299] {
        let mut head = response(status, &[]);
        let plan = interceptor()
            .modify_before_deserialization(&mut head, &RequestState::new())
            .unwrap();
        assert!(plan.decode.is_empty());
        assert_eq!(plan.transform, Some(false));
        assert_eq!(head.headers.len(), 1);
        assert!(head.headers.contains_key("x-amzn-requestid"));
    }
    for status in [199, 300, 404] {
        let mut head = response(status, &[]);
        let plan = interceptor()
            .modify_before_deserialization(&mut head, &RequestState::new())
            .unwrap();
        assert_eq!(plan.transform, None);
        assert_eq!(head.headers.len(), 4);
    }
}

#[test]
fn test_preserve_float32_vectors_operation_override_takes_precedence() {
    let mut state = RequestState::new();
    state.preserve_float32_vectors = Some(true);
    let plan = interceptor()
        .modify_before_deserialization(&mut response(200, &[]), &state)
        .unwrap();
    assert_eq!(plan.transform, Some(true));
}

#[test]
fn test_preserve_float32_vectors_operation_override_false_beats_client_true() {
    let mut client = interceptor();
    client.preserve_float32_vectors = true;
    let mut state = RequestState::new();
    let plan = client
        .modify_before_deserialization(&mut response(200, &[]), &state)
        .unwrap();
    assert_eq!(plan.transform, Some(true));
    state.preserve_float32_vectors = Some(false);
    let plan = client
        .modify_before_deserialization(&mut response(200, &[]), &state)
        .unwrap();
    assert_eq!(plan.transform, Some(false));
}

#[test]
fn unsupported_encodings_are_refused() {
    let mut head = response(200, &["gzip, br , zstd"]);
    let error = interceptor()
        .modify_before_deserialization(&mut head, &RequestState::new())
        .unwrap_err();
    assert_eq!(
        error.message(),
        "unsupported Content-Encoding: 'br'. Supported encodings are: gzip, deflate"
    );
    assert_eq!(head.headers.len(), 5);
}
