use rediserve::encoding::ExtractEncoding;
use rediserve::response::{TransactionApiResponseType};
use rediserve::{ApiError, ApiResponse, JsonValue, Reply, ResponseBuilder, StoreError};

fn store_error(detail: Option<&str>) -> ApiError {
    ApiError::RedisError(StoreError {
        detail: detail.map(|d| d.to_string()),
        message: "boom".to_string(),
    })
}

fn ok(x: &str) -> ApiResponse {
    ApiResponse { result: Some(JsonValue::String(x.to_string())), error: None }
}

#[test]
fn single_success_and_failures() {
    let b = ResponseBuilder::new("utf-8".to_string());
    assert_eq!(b.build(Ok(Reply::Okay)), ok("OK"));
    let e = b.build(Err(store_error(Some("wrong number of arguments"))));
    assert_eq!(e, ApiResponse { result: None, error: Some("ERR wrong number of arguments".to_string()) });
    let e = b.build(Err(store_error(None)));
    assert_eq!(e.error, Some("ERR".to_string()));
    let e = b.build(Err(ApiError::InvalidToken));
    assert_eq!(e.error, Some("invalid token".to_string()));
}

#[test]
fn base64_builder_encodes_results() {
    let b = ResponseBuilder::new("base64".to_string());
    assert_eq!(b.build(Ok(Reply::BulkString(vec![0xFF, 0xFE]))), ok("//4="));
}

#[test]
fn pipeline_keeps_order_and_isolates_failures() {
    let b = ResponseBuilder::new("utf-8".to_string());
    let out = b.build_pipeline(vec![
        Ok(Reply::Okay),
        Err(store_error(Some("bad"))),
        Ok(Reply::BulkString(b"v".to_vec())),
    ]);
    assert_eq!(out.0.len(), 3);
    assert_eq!(out.0[0], ok("OK"));
    assert_eq!(out.0[1].error, Some("ERR bad".to_string()));
    assert_eq!(out.0[2], ok("v"));
}

#[test]
fn transaction_shapes() {
    let b = ResponseBuilder::new("utf-8".to_string());
    let t = b.build_transaction(Ok(Reply::Array(vec![Reply::Okay, Reply::BulkString(b"v".to_vec())])));
    assert_eq!(t.0, TransactionApiResponseType::TransactionResponse(vec![ok("OK"), ok("v")]));
    let t = b.build_transaction(Ok(Reply::Integer(3)));
    assert_eq!(
        t.0,
        TransactionApiResponseType::TransactionResponse(vec![ApiResponse {
            result: Some(JsonValue::Int(3)),
            error: None
        }])
    );
    let t = b.build_transaction(Err(store_error(Some("EXECABORT"))));
    assert_eq!(
        t.0,
        TransactionApiResponseType::TransactionError(ApiResponse {
            result: None,
            error: Some("ERR EXECABORT".to_string())
        })
    );
}

#[test]
fn error_and_from_str_envelopes() {
    let e = ResponseBuilder::error(store_error(Some("x")));
    assert_eq!(e.error, Some("Redis error: boom".to_string()));
    assert_eq!(ResponseBuilder::error(ApiError::InvalidEncoding).error, Some("invalid encoding".to_string()));
    assert_eq!(ResponseBuilder::from_str("hi"), ok("hi"));
}

#[test]
fn encoding_headers() {
    let e = ExtractEncoding::from_headers(None, None).unwrap();
    assert_eq!(e.into_inner(), "utf-8");
    let e = ExtractEncoding::from_headers(Some(b"base64"), None).unwrap();
    assert_eq!(e.into_inner(), "base64");
    let e = ExtractEncoding::from_headers(None, Some(b"base64")).unwrap();
    assert_eq!(e.into_inner(), "base64");
    assert_eq!(ExtractEncoding::from_headers(Some(b"gzip"), None), Err(ApiError::InvalidEncoding));
    assert_eq!(
        ExtractEncoding::from_headers(Some(b"utf-8"), Some(b"base64")),
        Err(ApiError::InvalidEncoding)
    );
    assert_eq!(ExtractEncoding::from_headers(Some(&[0xff]), None), Err(ApiError::InvalidEncoding));
}
