use alternator_driver::compression::{
    accept_encoding_header_value, can_compress, compress_request, decompress,
};
use alternator_driver::http::Request;
use alternator_driver::{
    CompressionAlgorithm, CompressionLevel, RequestCompression, ResponseCompression,
    ResponseCompressionAlgorithm,
};

const BODY: &str = r#"{"AttributeDefinitions":[{"AttributeName":"ExampleAttribute","AttributeType":"S"}],"TableName":"ExampleTable","KeySchema":[{"AttributeName":"ExampleAttribute","KeyType":"HASH"}],"BillingMode":"PAY_PER_REQUEST"}"#;

fn example_request() -> Request {
    let mut request = Request::empty();
    request
        .headers
        .insert("content-type", "application/x-amz-json-1.0");
    request
        .headers
        .insert("x-amz-target", "DynamoDB_20120810.CreateTable");
    request.headers.insert("content-length", "210");
    request.headers.insert("host", "localhost:7999");
    request.body = Some(BODY.as_bytes().to_vec());
    request
}

fn body(request: &Request) -> &[u8] {
    request.body.as_deref().expect("cant access body bytes")
}

#[test]
fn test_gzip_request_compression() {
    let original_request = example_request();
    let mut request = example_request();

    compress_request(
        &mut request,
        CompressionAlgorithm::Gzip,
        CompressionLevel::default(),
        0,
    );

    assert_eq!(
        request
            .headers
            .get("content-encoding")
            .expect("content-encoding header exists"),
        "gzip"
    );

    assert_eq!(
        decompress(CompressionAlgorithm::Gzip, body(&request)).expect("decompression unsuccessful"),
        body(&original_request)
    );
    assert_ne!(body(&request), body(&original_request));
    assert_eq!(
        request.headers.get("content-length"),
        Some(body(&request).len().to_string().as_str())
    );
}

#[test]
fn test_zlib_request_compression() {
    let original_request = example_request();
    let mut request = example_request();

    compress_request(
        &mut request,
        CompressionAlgorithm::Zlib,
        CompressionLevel::default(),
        0,
    );

    assert_eq!(
        request
            .headers
            .get("content-encoding")
            .expect("content-encoding header does not exist"),
        "deflate"
    );

    assert_eq!(
        decompress(CompressionAlgorithm::Zlib, body(&request)).expect("decompression unsuccessful"),
        body(&original_request)
    );
    assert_ne!(body(&request), body(&original_request));
}

#[test]
fn test_request_compression_threshold_exceeded() {
    let original_request = example_request();
    let mut request = example_request();

    let content_length = body(&original_request).len();

    compress_request(
        &mut request,
        CompressionAlgorithm::Gzip,
        CompressionLevel::default(),
        content_length + 1,
    );

    assert!(!request.headers.contains_key("content-encoding"));
    assert_eq!(body(&request), body(&original_request));
}

#[test]
fn test_request_compression_threshold_within() {
    let original_request = example_request();
    let mut request = example_request();

    let content_length = body(&original_request).len();

    compress_request(
        &mut request,
        CompressionAlgorithm::Gzip,
        CompressionLevel::default(),
        content_length,
    );

    assert_eq!(
        request
            .headers
            .get("content-encoding")
            .expect("content-encoding header does not exist"),
        "gzip"
    );

    assert_eq!(
        decompress(CompressionAlgorithm::Gzip, body(&request)).expect("decompression unsuccessful"),
        body(&original_request)
    );
}

#[test]
fn test_request_compression_no_double_compression() {
    let original_request = example_request();
    let mut request = example_request();

    request.headers.insert("content-encoding", "deflate");

    compress_request(
        &mut request,
        CompressionAlgorithm::Gzip,
        CompressionLevel::default(),
        0,
    );

    assert_eq!(
        request
            .headers
            .get("content-encoding")
            .expect("content-encoding header does not exist"),
        "deflate"
    );
    assert_eq!(body(&request), body(&original_request));
}

#[test]
fn request_compression_deflate_sends_deflate_header() {
    let mut request = example_request();
    compress_request(
        &mut request,
        CompressionAlgorithm::Zlib,
        CompressionLevel::default(),
        0,
    );
    assert_eq!(
        request
            .headers
            .get("content-encoding")
            .expect("content-encoding header"),
        "deflate"
    );
}

#[test]
fn request_with_a_body_that_is_not_collected_is_not_compressed() {
    let mut request = example_request();
    request.body = None;
    assert!(!can_compress(&request, 0));
    compress_request(
        &mut request,
        CompressionAlgorithm::Gzip,
        CompressionLevel::best(),
        0,
    );
    assert!(request.body.is_none());
    assert!(!request.headers.contains_key("content-encoding"));
    assert_eq!(request.headers.get("content-length"), Some("210"));
}

#[test]
fn every_level_gives_the_content_back() {
    for level in 0..=10 {
        for algorithm in [CompressionAlgorithm::Gzip, CompressionAlgorithm::Zlib] {
            let mut request = example_request();
            compress_request(&mut request, algorithm, CompressionLevel::new(level), 0);
            assert_eq!(
                decompress(algorithm, body(&request)).as_deref(),
                Some(BODY.as_bytes())
            );
        }
    }
}

#[test]
fn streams_of_the_other_algorithm_are_not_decompressed() {
    let mut request = example_request();
    compress_request(
        &mut request,
        CompressionAlgorithm::Gzip,
        CompressionLevel::default(),
        0,
    );
    assert_eq!(decompress(CompressionAlgorithm::Zlib, body(&request)), None);
    assert_eq!(
        decompress(CompressionAlgorithm::Gzip, BODY.as_bytes()),
        None
    );
}

#[test]
fn request_compression_default_is_gzip_from_one_kibibyte_on() {
    assert_eq!(
        RequestCompression::default().get(),
        Some((
            CompressionAlgorithm::Gzip,
            CompressionLevel::default(),
            1024
        ))
    );
    assert_eq!(CompressionLevel::default().level(), 6);
    assert_eq!(RequestCompression::disabled().get(), None);
}

// --- ResponseCompression API tests ---

#[test]
fn compression_response_compression_default_is_disabled() {
    let rc = ResponseCompression::default();
    assert_eq!(rc.get(), None);
}

#[test]
fn response_compression_enabled_gzip() {
    let rc = ResponseCompression::enabled(ResponseCompressionAlgorithm::Gzip);
    assert_eq!(
        rc.get(),
        Some([ResponseCompressionAlgorithm::Gzip].as_slice())
    );
}

#[test]
fn response_compression_enabled_deflate() {
    let rc = ResponseCompression::enabled(ResponseCompressionAlgorithm::Deflate);
    assert_eq!(
        rc.get(),
        Some([ResponseCompressionAlgorithm::Deflate].as_slice())
    );
}

#[test]
fn response_compression_enabled_many_preserves_order() {
    let rc = ResponseCompression::enabled_many(vec![
        ResponseCompressionAlgorithm::Gzip,
        ResponseCompressionAlgorithm::Deflate,
    ]);
    assert_eq!(
        rc.get(),
        Some(
            [
                ResponseCompressionAlgorithm::Gzip,
                ResponseCompressionAlgorithm::Deflate,
            ]
            .as_slice()
        )
    );
}

#[test]
fn response_compression_enabled_many_reverse_order() {
    let rc = ResponseCompression::enabled_many(vec![
        ResponseCompressionAlgorithm::Deflate,
        ResponseCompressionAlgorithm::Gzip,
    ]);
    assert_eq!(
        rc.get(),
        Some(
            [
                ResponseCompressionAlgorithm::Deflate,
                ResponseCompressionAlgorithm::Gzip,
            ]
            .as_slice()
        )
    );
}

#[test]
fn response_compression_enabled_many_deduplicates() {
    let rc = ResponseCompression::enabled_many(vec![
        ResponseCompressionAlgorithm::Gzip,
        ResponseCompressionAlgorithm::Gzip,
        ResponseCompressionAlgorithm::Deflate,
    ]);
    assert_eq!(
        rc.get(),
        Some(
            [
                ResponseCompressionAlgorithm::Gzip,
                ResponseCompressionAlgorithm::Deflate,
            ]
            .as_slice()
        )
    );
}

#[test]
fn response_compression_enabled_many_empty_means_all() {
    let rc = ResponseCompression::enabled_many(Vec::new());
    assert_eq!(rc.get(), Some(ResponseCompressionAlgorithm::all().as_slice()));
}

#[test]
fn response_compression_enabled_all() {
    let rc = ResponseCompression::enabled_all();
    assert_eq!(rc.get(), Some(ResponseCompressionAlgorithm::all().as_slice()));
}

#[test]
fn accept_encoding_header_value_gzip_deflate() {
    let value = accept_encoding_header_value(&[
        ResponseCompressionAlgorithm::Gzip,
        ResponseCompressionAlgorithm::Deflate,
    ]);
    assert_eq!(value, "gzip, deflate");
}

#[test]
fn from_content_encoding_gzip() {
    assert_eq!(
        ResponseCompressionAlgorithm::from_content_encoding("gzip"),
        Some(ResponseCompressionAlgorithm::Gzip)
    );
}

#[test]
fn from_content_encoding_deflate() {
    assert_eq!(
        ResponseCompressionAlgorithm::from_content_encoding("deflate"),
        Some(ResponseCompressionAlgorithm::Deflate)
    );
}

#[test]
fn from_content_encoding_case_insensitive() {
    assert_eq!(
        ResponseCompressionAlgorithm::from_content_encoding("GZIP"),
        Some(ResponseCompressionAlgorithm::Gzip)
    );
}

#[test]
fn from_content_encoding_unsupported() {
    assert_eq!(
        ResponseCompressionAlgorithm::from_content_encoding("br"),
        None
    );
}

#[test]
fn from_content_encoding_with_parameters() {
    assert_eq!(
        ResponseCompressionAlgorithm::from_content_encoding("gzip; q=1.0"),
        Some(ResponseCompressionAlgorithm::Gzip)
    );
}

#[test]
fn from_content_encoding_accepts_the_old_name_and_white_space() {
    assert_eq!(
        ResponseCompressionAlgorithm::from_content_encoding(" \tX-GZip ;level=9"),
        Some(ResponseCompressionAlgorithm::Gzip)
    );
    assert_eq!(
        ResponseCompressionAlgorithm::from_content_encoding(""),
        None
    );
}

#[test]
fn advertised_tokens_are_understood() {
    for algorithm in ResponseCompressionAlgorithm::all() {
        assert_eq!(
            ResponseCompressionAlgorithm::from_content_encoding(algorithm.accept_encoding_token()),
            Some(algorithm)
        );
    }
}
