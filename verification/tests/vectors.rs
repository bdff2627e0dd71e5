use alternator_driver::float32_vector::{
    attribute_value_to_json, contains_marker, quick_base64_signature, rewrite_request_json_markers,
    rewrite_response_json_markers, MAGIC_PREFIX,
};
use alternator_driver::http::Request;
use alternator_driver::interceptors::{
    operation_name_from_target, rewrite_vector_request_body, RequestState,
};
use alternator_driver::json::{Json, JsonNumber};
use alternator_driver::vector::{
    ReturnScores, VectorAttribute, VectorIndex, VectorIndexUpdate, VectorSearch,
};
use alternator_driver::vector_interceptor::{VectorRequestStore, VectorRequestStoreInterceptor};
use alternator_driver::vector_request::{will_set_member, VectorRequestError};
use alternator_driver::vector_response::{
    contains_subslice, transform_bytes, BodyAction, BodyEvent, VectorResponseHolder,
    VectorTransformState,
};
use alternator_driver::{
    AlternatorInterceptor, AttributeValue, CompressionAlgorithm, CompressionLevel, Float32Vector,
    Float32VectorError, RequestCompression, ResponseCompression, UserAgent,
};
use base64::Engine as _;
use serde_json::Value;

// ----- Reading and writing JSON -----

fn to_json(value: &Value) -> Json {
    match value {
        Value::Null => Json::Null,
        Value::Bool(b) => Json::Bool(*b),
        Value::Number(n) => {
            let double = n.as_f64().unwrap();
            Json::Number(JsonNumber::Read {
                signed: n.as_i64(),
                unsigned: n.as_u64(),
                double_bits: double.to_bits(),
                single_bits: (double as f32).to_bits(),
                decimal: double.to_string(),
            })
        }
        Value::String(s) => Json::Text(s.clone()),
        Value::Array(items) => Json::Array(items.iter().map(to_json).collect()),
        Value::Object(members) => Json::Object(
            members
                .iter()
                .map(|(name, value)| (name.clone(), to_json(value)))
                .collect(),
        ),
    }
}

fn to_value(json: &Json) -> Value {
    match json {
        Json::Null => Value::Null,
        Json::Bool(b) => Value::Bool(*b),
        Json::Number(JsonNumber::Read {
            signed,
            unsigned,
            double_bits,
            ..
        }) => match (signed, unsigned) {
            (Some(n), _) => Value::from(*n),
            (_, Some(n)) => Value::from(*n),
            _ => Value::from(f64::from_bits(*double_bits)),
        },
        Json::Number(JsonNumber::Unsigned(n)) => Value::from(*n),
        Json::Number(JsonNumber::Single(bits)) => Value::from(f32::from_bits(*bits)),
        Json::Text(s) => Value::String(s.clone()),
        Json::Array(items) => Value::Array(items.iter().map(to_value).collect()),
        Json::Object(members) => Value::Object(
            members
                .iter()
                .map(|(name, value)| (name.clone(), to_value(value)))
                .collect(),
        ),
    }
}

fn parse(bytes: &[u8]) -> Result<Json, String> {
    serde_json::from_slice::<Value>(bytes)
        .map(|value| to_json(&value))
        .map_err(|e| e.to_string())
}

fn write(json: &Json) -> Result<Vec<u8>, String> {
    serde_json::to_vec(&to_value(json)).map_err(|e| e.to_string())
}

fn value(text: &str) -> Value {
    serde_json::from_str(text).unwrap()
}

fn bits(values: &[f32]) -> Vec<u32> {
    values.iter().map(|v| v.to_bits()).collect()
}

fn marker(values: &[f32]) -> Vec<u8> {
    match Float32Vector::to_attribute_value(&bits(values)).unwrap() {
        AttributeValue::B(bytes) => bytes,
        _ => unreachable!(),
    }
}

fn base64_of(bytes: &[u8]) -> String {
    base64::engine::general_purpose::STANDARD.encode(bytes)
}

// ----- Markers -----

#[test]
fn round_trips_values() {
    let values = bits(&[1.0f32, -2.5, 0.0, f32::MAX, f32::MIN]);
    let av = Float32Vector::to_attribute_value(&values).unwrap();
    assert!(av.is_float32_vector());
    assert_eq!(av.float32_vector().unwrap(), values);
}

#[test]
fn empty_vector_round_trips() {
    let av = Float32Vector::to_attribute_value(&[]).unwrap();
    assert!(av.is_float32_vector());
    assert_eq!(av.float32_vector().unwrap(), Vec::<u32>::new());
}

#[test]
fn markers_hold_big_endian_values_after_the_prefix() {
    let mut expected = MAGIC_PREFIX.to_vec();
    expected.extend_from_slice(&1.0f32.to_be_bytes());
    expected.extend_from_slice(&(-2.5f32).to_be_bytes());
    assert_eq!(marker(&[1.0, -2.5]), expected);
}

#[test]
fn rejects_non_binary_values() {
    let av = AttributeValue::S("hello".into());
    assert!(!av.is_float32_vector());
    assert_eq!(av.float32_vector(), Err(Float32VectorError::NotBinary));
}

#[test]
fn rejects_ordinary_binary_without_prefix() {
    let av = AttributeValue::B(vec![1, 2, 3, 4]);
    assert!(!av.is_float32_vector());
    assert_eq!(av.float32_vector(), Err(Float32VectorError::NotAMarker));
}

#[test]
fn rejects_marker_prefix_with_invalid_payload_length() {
    let mut bytes = MAGIC_PREFIX.to_vec();
    bytes.extend_from_slice(&[1, 2, 3]); // not a multiple of 4
    let av = AttributeValue::B(bytes);
    assert!(!av.is_float32_vector());
    assert_eq!(
        av.float32_vector(),
        Err(Float32VectorError::InvalidPayloadLength { len: 3 })
    );
}

#[test]
fn to_attribute_value_rejects_non_finite_values() {
    assert_eq!(
        Float32Vector::to_attribute_value(&bits(&[1.0, f32::NAN])),
        Err(Float32VectorError::NonFiniteValue)
    );
    assert_eq!(
        Float32Vector::to_attribute_value(&bits(&[f32::INFINITY])),
        Err(Float32VectorError::NonFiniteValue)
    );
    assert_eq!(
        Float32Vector::to_attribute_value(&bits(&[f32::NEG_INFINITY])),
        Err(Float32VectorError::NonFiniteValue)
    );
}

#[test]
fn is_marker_bytes_accepts_prefix_only() {
    assert!(Float32Vector::is_marker_bytes(&MAGIC_PREFIX));
}

#[test]
fn messages_of_vector_errors() {
    assert_eq!(
        Float32VectorError::InvalidPayloadLength { len: 103 }.message(),
        "FLOAT32VECTOR marker payload length 103 is not a multiple of 4 bytes"
    );
    assert_eq!(
        Float32VectorError::NotBinary.message(),
        "value is not an AttributeValue::B"
    );
    assert_eq!(
        Float32VectorError::NotAMarker.message(),
        "binary value is not a FLOAT32VECTOR marker"
    );
    assert_eq!(
        Float32VectorError::NonFiniteValue.message(),
        "FLOAT32VECTOR values must be finite (no NaN or infinity)"
    );
}

#[test]
fn quick_base64_signature_matches_encoded_marker() {
    let b64 = base64_of(&marker(&[1.0]));
    assert!(b64.starts_with(&quick_base64_signature()));
    assert_eq!(quick_base64_signature().len(), 8);
}

// ----- Request documents -----

#[test]
fn rewrite_request_json_markers_replaces_marker_binary() {
    let b64 = base64_of(&marker(&[1.0, 2.0]));
    let mut json = to_json(&value(&format!(
        r#"{{"Item":{{"embedding":{{"B":"{b64}"}},"name":{{"S":"hello"}}}}}}"#
    )));
    assert!(contains_marker(&json));
    rewrite_request_json_markers(&mut json);
    assert!(!contains_marker(&json));
    let json = to_value(&json);
    assert_eq!(
        json["Item"]["embedding"],
        value(r#"{"FLOAT32VECTOR":[1.0,2.0]}"#)
    );
    assert_eq!(json["Item"]["name"], value(r#"{"S":"hello"}"#));
}

#[test]
fn rewrite_request_json_markers_leaves_ordinary_binary_unchanged() {
    let b64 = base64_of(&[1, 2, 3, 4]);
    let text = format!(r#"{{"attr":{{"B":"{b64}"}}}}"#);
    let mut json = to_json(&value(&text));
    rewrite_request_json_markers(&mut json);
    assert_eq!(to_value(&json), value(&text));
}

#[test]
fn rewrite_request_json_markers_reaches_lists_and_maps() {
    let b64 = base64_of(&marker(&[3.5]));
    let mut json = to_json(&value(&format!(
        r#"[{{"L":[{{"B":"{b64}"}},{{"M":{{"v":{{"B":"{b64}"}}}}}}]}},{{"B":"{b64}","x":1}},{{"B":"!"}}]"#
    )));
    rewrite_request_json_markers(&mut json);
    assert_eq!(
        to_value(&json),
        value(&format!(
            r#"[{{"L":[{{"FLOAT32VECTOR":[3.5]}},{{"M":{{"v":{{"FLOAT32VECTOR":[3.5]}}}}}}]}},{{"B":"{b64}","x":1}},{{"B":"!"}}]"#
        ))
    );
}

#[test]
fn query_vectors_have_the_form_of_attribute_values() {
    let list = AttributeValue::L(vec![
        AttributeValue::N("1".into()),
        AttributeValue::B(vec![0xff]),
    ]);
    assert_eq!(
        to_value(&attribute_value_to_json(&list)),
        value(r#"{"L":[{"N":"1"},{"B":"/w=="}]}"#)
    );
}

#[test]
fn operation_name_from_target_extracts_operation() {
    assert_eq!(
        operation_name_from_target("DynamoDB_20120810.CreateTable").as_deref(),
        Some("CreateTable")
    );
    assert_eq!(
        operation_name_from_target("DynamoDB_20120810.PutItem").as_deref(),
        Some("PutItem")
    );
    assert_eq!(operation_name_from_target("").as_deref(), Some(""));
}

fn index() -> VectorIndex {
    VectorIndex {
        index_name: "vec_idx".to_string(),
        vector_attribute: VectorAttribute {
            attribute_name: "embedding".to_string(),
            dimensions: 128,
        },
        projection: None,
        similarity_function: None,
        index_status: None,
        backfilling: None,
    }
}

#[test]
fn test_vector_index_json_structure() {
    let value = to_value(&index().to_json());

    assert_eq!(value["IndexName"], "vec_idx");

    // No KeySchema: it is inherited from the base table.
    assert!(value.get("KeySchema").is_none());

    // No projection configured, so the field is omitted entirely.
    assert!(value.get("Projection").is_none());

    assert_eq!(value["VectorAttribute"]["AttributeName"], "embedding");
    assert_eq!(value["VectorAttribute"]["Dimensions"], 128);
}

fn request(operation: &str, body: &str) -> Request {
    let mut request = Request::empty();
    request
        .headers
        .insert("x-amz-target", &format!("DynamoDB_20120810.{operation}"));
    request.body = Some(body.as_bytes().to_vec());
    request
}

fn rewrite(
    operation: &str,
    body: &str,
    interceptor: Option<VectorRequestStoreInterceptor>,
) -> Result<Value, VectorRequestError> {
    let mut request = request(operation, body);
    let store: Option<VectorRequestStore> = interceptor.map(|i| i.store);
    rewrite_vector_request_body(&mut request, &store, &parse, &write)?;
    let sent = request.body.unwrap();
    if let Some(length) = request.headers.get("content-length") {
        assert_eq!(length, sent.len().to_string());
    }
    Ok(serde_json::from_slice(&sent).unwrap())
}

fn search_query(body: &str, search: VectorSearch) -> Result<Value, VectorRequestError> {
    rewrite(
        "Query",
        body,
        Some(VectorRequestStoreInterceptor::for_vector_search(search)),
    )
}

fn one_element_search() -> VectorSearch {
    VectorSearch::new(&bits(&[1.0])).unwrap()
}

#[test]
fn vector_indexes_are_injected_before_compression_on_create_table() {
    let interceptor = AlternatorInterceptor {
        request_compression: RequestCompression::enabled(
            CompressionAlgorithm::Gzip,
            CompressionLevel::default(),
            0,
        ),
        response_compression: ResponseCompression::disabled(),
        optimize_headers: false,
        user_agent: UserAgent::default(),
        preserve_auth_headers: true,
        preserve_float32_vectors: false,
    };
    let mut state = RequestState::new();
    state.vector_request =
        Some(VectorRequestStoreInterceptor::for_vector_indexes(vec![index()]).store);
    let mut request = request("CreateTable", r#"{"TableName":"test_table"}"#);
    interceptor
        .modify_before_retry_loop(&mut request, &state, &parse, &write)
        .unwrap();

    assert_eq!(request.headers.get("content-encoding"), Some("gzip"));
    let decompressed = alternator_driver::compression::decompress(
        CompressionAlgorithm::Gzip,
        request.body.as_deref().unwrap(),
    )
    .expect("valid gzip body");
    let json: Value = serde_json::from_slice(&decompressed).unwrap();
    assert_eq!(json["VectorIndexes"][0]["IndexName"], "vec_idx");
    assert_eq!(
        json["VectorIndexes"][0]["VectorAttribute"]["AttributeName"],
        "embedding"
    );
    assert_eq!(json["TableName"], "test_table");
}

#[test]
fn vector_index_updates_are_injected_on_update_table() {
    let json = rewrite(
        "UpdateTable",
        r#"{"TableName":"test_table"}"#,
        Some(VectorRequestStoreInterceptor::for_vector_index_updates(
            vec![VectorIndexUpdate::Create(index())],
        )),
    )
    .unwrap();
    assert_eq!(
        json["VectorIndexUpdates"][0]["Create"]["IndexName"],
        "vec_idx"
    );
}

#[test]
fn vector_index_delete_is_injected_on_update_table() {
    let json = rewrite(
        "UpdateTable",
        r#"{"TableName":"test_table"}"#,
        Some(VectorRequestStoreInterceptor::for_vector_index_updates(
            vec![VectorIndexUpdate::Delete {
                index_name: "vec_idx".to_string(),
            }],
        )),
    )
    .unwrap();
    assert_eq!(
        json["VectorIndexUpdates"][0]["Delete"]["IndexName"],
        "vec_idx"
    );
    assert!(json["VectorIndexUpdates"][0].get("Create").is_none());
}

#[test]
fn vector_search_is_injected_on_query() {
    let search = VectorSearch::new(&bits(&[1.0, 2.0, 3.0]))
        .unwrap()
        .with_return_scores(ReturnScores::Similarity);
    let json = search_query(
        r#"{"TableName":"test_table","IndexName":"embedding_idx","Limit":10}"#,
        search,
    )
    .unwrap();
    assert_eq!(
        json["VectorSearch"]["QueryVector"]["FLOAT32VECTOR"],
        value("[1.0,2.0,3.0]")
    );
    assert_eq!(json["VectorSearch"]["ReturnScores"], "SIMILARITY");
}

#[test]
fn vector_search_from_query_vector_uses_standard_list_on_wire() {
    let search = VectorSearch::from_query_vector(vec![
        AttributeValue::N("1".to_string()),
        AttributeValue::N("2".to_string()),
        AttributeValue::N("3".to_string()),
    ])
    .unwrap();
    let json = search_query(
        r#"{"TableName":"test_table","IndexName":"embedding_idx","Limit":10}"#,
        search,
    )
    .unwrap();
    assert_eq!(
        json["VectorSearch"]["QueryVector"]["L"],
        value(r#"[{"N":"1"},{"N":"2"},{"N":"3"}]"#)
    );
    assert!(json["VectorSearch"]["QueryVector"]
        .get("FLOAT32VECTOR")
        .is_none());
    assert!(VectorSearch::from_query_vector(vec![AttributeValue::S("1".to_string())]).is_none());
    assert!(VectorSearch::new(&bits(&[f32::NAN])).is_err());
}

#[test]
fn vector_query_rejects_missing_index_name() {
    for body in [r#"{"Limit":10}"#, r#"{"IndexName":"","Limit":10}"#] {
        let err = search_query(body, one_element_search()).unwrap_err();
        assert!(err.message().contains("require IndexName"));
    }
}

#[test]
fn vector_query_rejects_missing_limit() {
    for body in [
        r#"{"IndexName":"embedding_idx"}"#,
        r#"{"IndexName":"embedding_idx","Limit":1.5}"#,
    ] {
        let err = search_query(body, one_element_search()).unwrap_err();
        assert_eq!(err.message(), "vector-search queries require Limit");
    }
}

#[test]
fn vector_query_rejects_limit_out_of_range() {
    for limit in [0i64, 1001, -5, i64::MIN] {
        let body = format!(r#"{{"IndexName":"embedding_idx","Limit":{limit}}}"#);
        let err = search_query(&body, one_element_search()).unwrap_err();
        assert_eq!(
            err.message(),
            format!("vector-search queries require Limit between 1 and 1000, got {limit}")
        );
    }
    for limit in [1, 1000] {
        let body = format!(r#"{{"IndexName":"embedding_idx","Limit":{limit}}}"#);
        assert!(search_query(&body, one_element_search()).is_ok());
    }
}

#[test]
fn vector_query_rejects_consistent_read_true() {
    let err = search_query(
        r#"{"IndexName":"embedding_idx","Limit":10,"ConsistentRead":true}"#,
        one_element_search(),
    )
    .unwrap_err();
    assert!(err.message().contains("ConsistentRead(true)"));
    assert!(search_query(
        r#"{"IndexName":"embedding_idx","Limit":10,"ConsistentRead":false}"#,
        one_element_search(),
    )
    .is_ok());
}

#[test]
fn vector_query_rejects_exclusive_start_key() {
    let err = search_query(
        r#"{"IndexName":"embedding_idx","Limit":10,"ExclusiveStartKey":{"pk":{"S":"row1"}}}"#,
        one_element_search(),
    )
    .unwrap_err();
    assert!(err.message().contains("ExclusiveStartKey"));
    assert!(search_query(
        r#"{"IndexName":"embedding_idx","Limit":10,"ExclusiveStartKey":null}"#,
        one_element_search(),
    )
    .is_ok());
}

#[test]
fn vector_query_rejects_scan_index_forward() {
    let err = search_query(
        r#"{"IndexName":"embedding_idx","Limit":10,"ScanIndexForward":false}"#,
        one_element_search(),
    )
    .unwrap_err();
    assert!(err.message().contains("ScanIndexForward"));
}

#[test]
fn vector_query_rejects_the_legacy_filter() {
    let err = search_query(
        r#"{"IndexName":"embedding_idx","Limit":10,"QueryFilter":{}}"#,
        one_element_search(),
    )
    .unwrap_err();
    assert!(err.message().contains("legacy QueryFilter"));
}

#[test]
fn vector_query_rejects_return_scores_similarity_with_select_count() {
    let body = r#"{"IndexName":"embedding_idx","Limit":10,"Select":"COUNT"}"#;
    let err = search_query(
        body,
        one_element_search().with_return_scores(ReturnScores::Similarity),
    )
    .unwrap_err();
    assert!(err
        .message()
        .contains("ReturnScores::Similarity is not supported with Select::Count"));
    assert!(search_query(body, one_element_search()).is_ok());
}

#[test]
fn extras_on_other_operations_are_refused() {
    let err = rewrite(
        "PutItem",
        "{}",
        Some(VectorRequestStoreInterceptor::for_vector_indexes(vec![
            index(),
        ])),
    )
    .unwrap_err();
    assert_eq!(
        err.message(),
        "vector_indexes() was set on a customize() call for operation 'PutItem', but VectorIndexes is only supported on CreateTable requests"
    );
    let err = rewrite(
        "CreateTable",
        "{}",
        Some(VectorRequestStoreInterceptor::for_vector_index_updates(
            Vec::new(),
        )),
    )
    .unwrap_err();
    assert_eq!(
        err.message(),
        "vector_index_updates() was set on a customize() call for operation 'CreateTable', but VectorIndexUpdates is only supported on UpdateTable requests"
    );
    let err = rewrite(
        "Scan",
        "{}",
        Some(VectorRequestStoreInterceptor::for_vector_search(
            one_element_search(),
        )),
    )
    .unwrap_err();
    assert_eq!(
        err.message(),
        "vector_search() was set on a customize() call for operation 'Scan', but VectorSearch is only supported on Query requests"
    );
}

#[test]
fn updates_of_vector_indexes_come_alone() {
    let two = || VectorIndexUpdate::Delete {
        index_name: "i".to_string(),
    };
    let err = rewrite(
        "UpdateTable",
        "{}",
        Some(VectorRequestStoreInterceptor::for_vector_index_updates(
            vec![two(), two()],
        )),
    )
    .unwrap_err();
    assert_eq!(
        err.message(),
        "UpdateTable.VectorIndexUpdates must contain exactly one update per request, got 2"
    );
    let err = rewrite(
        "UpdateTable",
        r#"{"GlobalSecondaryIndexUpdates":[{}]}"#,
        Some(VectorRequestStoreInterceptor::for_vector_index_updates(
            vec![two()],
        )),
    )
    .unwrap_err();
    assert!(err
        .message()
        .starts_with("vector-index updates cannot be combined"));
    assert!(rewrite(
        "UpdateTable",
        r#"{"GlobalSecondaryIndexUpdates":[]}"#,
        Some(VectorRequestStoreInterceptor::for_vector_index_updates(
            vec![two()],
        )),
    )
    .is_ok());
}

#[test]
fn bodies_that_cannot_be_read_are_refused() {
    let err = rewrite("Query", "not json", None).unwrap_err();
    assert!(err.message().starts_with("failed to parse JSON body: "));
    let mut uncollected = request("Query", "");
    uncollected.body = None;
    let err = rewrite_vector_request_body(&mut uncollected, &None, &parse, &write).unwrap_err();
    assert_eq!(err.message(), "body not collected");
    let b64 = base64_of(&marker(&[1.0]));
    let mut unwritable = request("PutItem", &format!(r#"{{"B":"{b64}"}}"#));
    let err = rewrite_vector_request_body(&mut unwritable, &None, &parse, &|_: &Json| {
        Err("no".to_string())
    })
    .unwrap_err();
    assert_eq!(err.message(), "failed to serialize JSON body: no");
}

#[test]
fn marker_binaries_are_rewritten_to_float32vector_in_put_item() {
    let b64 = base64_of(&marker(&[1.0, 2.0, 3.0]));
    let json = rewrite(
        "PutItem",
        &format!(
            r#"{{"TableName":"test_table","Item":{{"pk":{{"S":"row1"}},"embedding":{{"B":"{b64}"}}}}}}"#
        ),
        None,
    )
    .unwrap();
    assert_eq!(
        json["Item"]["embedding"]["FLOAT32VECTOR"],
        value("[1.0,2.0,3.0]")
    );
    assert_eq!(json["Item"]["pk"]["S"], "row1");
}

#[test]
fn ordinary_binary_values_are_left_unchanged_in_put_item() {
    let b64 = base64_of(&[1, 2, 3, 4]);
    let body = format!(r#"{{ "Item":{{"blob":{{"B":"{b64}"}}}}}}"#);
    let mut request = request("PutItem", &body);
    rewrite_vector_request_body(&mut request, &None, &parse, &write).unwrap();
    // Byte for byte, and without a new length.
    assert_eq!(request.body.as_deref(), Some(body.as_bytes()));
    assert!(!request.headers.contains_key("content-length"));
}

#[test]
fn misapplied_extras_are_refused_whatever_the_body_is() {
    let indexes = || VectorRequestStoreInterceptor::for_vector_indexes(Vec::new());
    for body in ["[1]", "7", "null", "{}"] {
        let err = rewrite("Query", body, Some(indexes())).unwrap_err();
        assert!(matches!(err, VectorRequestError::IndexesUnsupported(_)));
    }
    let updates = || VectorRequestStoreInterceptor::for_vector_index_updates(Vec::new());
    assert!(!will_set_member("UpdateTable", &updates().store));
    let err = rewrite("UpdateTable", "[1]", Some(updates())).unwrap_err();
    assert!(matches!(err, VectorRequestError::NotOneUpdate(0)));
    assert!(will_set_member("CreateTable", &indexes().store));
    assert!(!will_set_member("Query", &indexes().store));
}

// ----- Response documents -----

fn transform(body: &[u8], preserve: bool) -> Vec<u8> {
    transform_bytes(body, preserve, &mut None, &parse, &write).unwrap()
}

const VECTOR_BODY: &[u8] = br#"{"Item":{"embedding":{"FLOAT32VECTOR":[1.0,2.0]}}}"#;

#[test]
fn passes_through_empty_body_unchanged() {
    assert_eq!(transform(b"", false), Vec::<u8>::new());
}

#[test]
fn passes_through_non_json_body_unchanged() {
    assert_eq!(transform(b"not json", false), b"not json".to_vec());
    assert_eq!(
        transform(b"FLOAT32VECTOR, but not json", false),
        b"FLOAT32VECTOR, but not json".to_vec()
    );
}

#[test]
fn passes_through_body_without_marker_unchanged() {
    let bytes = br#"{ "Item": {"pk": {"S": "x"}} }"#;
    assert_eq!(transform(bytes, false), bytes.to_vec());
}

#[test]
fn converts_float32vector_to_l_n_by_default() {
    let out: Value = serde_json::from_slice(&transform(VECTOR_BODY, false)).unwrap();
    assert_eq!(
        out["Item"]["embedding"]["L"],
        value(r#"[{"N":"1"},{"N":"2"}]"#)
    );
}

#[test]
fn converts_float32vector_to_marker_binary_when_preserving() {
    let out: Value = serde_json::from_slice(&transform(VECTOR_BODY, true)).unwrap();
    assert_eq!(
        out["Item"]["embedding"]["B"],
        base64_of(&marker(&[1.0, 2.0]))
    );
}

#[test]
fn preserved_vectors_can_be_written_back() {
    let preserved = transform(VECTOR_BODY, true);
    let mut json = parse(&preserved).unwrap();
    rewrite_request_json_markers(&mut json);
    assert_eq!(
        to_value(&json),
        serde_json::from_slice::<Value>(VECTOR_BODY).unwrap()
    );
}

#[test]
fn lists_that_are_no_vectors_are_left_unchanged() {
    for text in [
        r#"{"FLOAT32VECTOR":[1.0,"2"]}"#,
        r#"{"FLOAT32VECTOR":"x"}"#,
        r#"{"FLOAT32VECTOR":[1.0],"other":1}"#,
        r#"{"L":[{"N":"1"}],"B":"AAAA"}"#,
    ] {
        for preserve in [true, false] {
            let mut json = to_json(&value(text));
            rewrite_response_json_markers(&mut json, preserve);
            assert_eq!(to_value(&json), value(text));
        }
    }
}

#[test]
fn elements_beyond_single_precision_are_preserved_as_infinities() {
    let mut json = to_json(&value(r#"[{"a":{"FLOAT32VECTOR":[1e300]}},1e300]"#));
    rewrite_response_json_markers(&mut json, true);
    let mut marker = MAGIC_PREFIX.to_vec();
    marker.extend_from_slice(&f32::INFINITY.to_be_bytes());
    let text = base64::engine::general_purpose::STANDARD.encode(marker);
    assert_eq!(
        to_value(&json),
        value(&format!(r#"[{{"a":{{"B":"{text}"}}}},1e300]"#))
    );
}

#[test]
fn preserved_vectors_are_written_back_at_their_places() {
    let text = r#"{"Items":[{"e":{"FLOAT32VECTOR":[1.5,-2.0]},"n":{"N":"7"}},{"e":{"FLOAT32VECTOR":[]}}]}"#;
    let mut json = to_json(&value(text));
    rewrite_response_json_markers(&mut json, true);
    assert_ne!(to_value(&json), value(text));
    rewrite_request_json_markers(&mut json);
    assert_eq!(to_value(&json), value(text));
}

fn extract(body: &str) -> (Result<Vec<u8>, String>, VectorResponseHolder) {
    let mut holder = Some(VectorResponseHolder::default());
    let result = transform_bytes(body.as_bytes(), false, &mut holder, &parse, &write)
        .map_err(|e| e.message().to_string());
    (result, holder.unwrap())
}

#[test]
fn extracts_scores_into_holder() {
    let (result, holder) = extract(r#"{"Items":[{},{}],"Scores":[0.9,0.1]}"#);
    assert!(result.is_ok());
    assert_eq!(
        holder.scores,
        Some(vec![0.9f64.to_bits(), 0.1f64.to_bits()])
    );
    assert!(holder.vector_indexes.is_none());
}

#[test]
fn rejects_scores_with_mismatched_items() {
    let (result, holder) = extract(r#"{"Items":[],"Scores":[0.9]}"#);
    assert_eq!(
        result.unwrap_err(),
        "Items and Scores response fields must have the same length"
    );
    assert_eq!(holder.scores, None);
}

#[test]
fn rejects_scores_that_are_no_numbers() {
    assert_eq!(
        extract(r#"{"Scores":{}}"#).0.unwrap_err(),
        "Scores response field must be an array"
    );
    assert_eq!(
        extract(r#"{"Scores":[1,"2"]}"#).0.unwrap_err(),
        "Scores response field must contain numbers"
    );
}

#[test]
fn extracts_vector_indexes_from_table_description_into_holder() {
    let (result, holder) = extract(
        r#"{"TableDescription":{"VectorIndexes":[{"IndexName":"vec_idx","VectorAttribute":{"AttributeName":"embedding","Dimensions":4},"IndexStatus":"ACTIVE","Backfilling":false}]}}"#,
    );
    assert!(result.is_ok());
    let indexes = holder.vector_indexes.unwrap();
    assert_eq!(indexes.len(), 1);
    assert_eq!(indexes[0].index_name, "vec_idx");
    assert_eq!(indexes[0].vector_attribute.dimensions, 4);
    assert_eq!(indexes[0].index_status.as_deref(), Some("ACTIVE"));
    assert_eq!(indexes[0].backfilling, Some(false));
    assert!(indexes[0].projection.is_none());
}

#[test]
fn rejects_non_array_vector_indexes() {
    assert_eq!(
        extract(r#"{"Table":{"VectorIndexes":{}}}"#).0.unwrap_err(),
        "VectorIndexes response field must be an array"
    );
    assert!(extract(r#"{"Table":{"VectorIndexes":[{}]}}"#).0.is_err());
}

#[test]
fn a_fault_keeps_what_was_taken_before_it() {
    let (result, holder) = extract(r#"{"Scores":[1.0],"Table":{"VectorIndexes":1}}"#);
    assert!(result.is_err());
    assert_eq!(holder.scores, Some(vec![1.0f64.to_bits()]));
}

#[test]
fn subslices_are_found() {
    assert!(contains_subslice(b"abcabd", b"abd"));
    assert!(!contains_subslice(b"abcab", b"abd"));
    assert!(contains_subslice(b"", b""));
    assert!(contains_subslice(b"a", b""));
    assert!(!contains_subslice(b"a", b"ab"));
}

// ----- Frames -----

#[test]
fn transforms_correctly_across_multiple_input_frames() {
    let (first, second) = VECTOR_BODY.split_at(VECTOR_BODY.len() / 2);
    let mut state: VectorTransformState<&str> = VectorTransformState::new();
    for chunk in [first, second] {
        assert!(matches!(state.poll_frame(), BodyAction::PollInner));
        state.on_event(BodyEvent::Data(chunk.to_vec()));
    }
    assert!(matches!(state.poll_frame(), BodyAction::PollInner));
    state.on_event(BodyEvent::Ended);
    assert!(matches!(state.poll_frame(), BodyAction::GiveData));
    let out: Value = serde_json::from_slice(&transform(state.buffer(), false)).unwrap();
    assert_eq!(
        out["Item"]["embedding"]["L"],
        value(r#"[{"N":"1"},{"N":"2"}]"#)
    );
    assert!(matches!(state.poll_frame(), BodyAction::End));
}

#[test]
fn preserves_trailers_across_transformation() {
    let mut state = VectorTransformState::new();
    state.on_event(BodyEvent::Data(VECTOR_BODY.to_vec()));
    state.on_event(BodyEvent::Trailers("x-amz-trailer-test"));
    state.on_event(BodyEvent::Ended);
    assert!(matches!(state.poll_frame(), BodyAction::GiveData));
    assert!(matches!(
        state.poll_frame(),
        BodyAction::GiveTrailers("x-amz-trailer-test")
    ));
    assert!(matches!(state.poll_frame(), BodyAction::End));
}

#[test]
fn a_failure_is_followed_by_no_data() {
    let mut state: VectorTransformState<()> = VectorTransformState::new();
    state.on_event(BodyEvent::Data(b"partial".to_vec()));
    state.on_event(BodyEvent::Failed);
    assert!(matches!(state.poll_frame(), BodyAction::End));
}
