use rediserve::reply::{encode_reply, encoding_is_base64, Reply};
use rediserve::{redis_value_to_json, JsonValue};

fn js(x: &str) -> JsonValue {
    JsonValue::String(x.to_string())
}

#[test]
fn binary_string_in_both_modes() {
    let r = Reply::BulkString(vec![0xFF, 0xFE]);
    assert_eq!(redis_value_to_json(r, "base64"), js("//4="));
    let r = Reply::BulkString(vec![0xFF, 0xFE]);
    assert_eq!(redis_value_to_json(r, "utf-8"), JsonValue::Null);
}

#[test]
fn utf8_string_in_text_mode() {
    let r = Reply::BulkString("héllo".as_bytes().to_vec());
    assert_eq!(encode_reply(&r, false), js("héllo"));
    assert_eq!(encode_reply(&Reply::BulkString(vec![]), true), js(""));
}

#[test]
fn status_text_and_base64() {
    let r = Reply::Status("PONG".to_string());
    assert_eq!(encode_reply(&r, false), js("PONG"));
    assert_eq!(encode_reply(&r, true), js("UE9ORw=="));
}

#[test]
fn ok_is_ok_in_every_mode() {
    assert_eq!(encode_reply(&Reply::Okay, false), js("OK"));
    assert_eq!(encode_reply(&Reply::Okay, true), js("OK"));
}

#[test]
fn integers_and_nil() {
    assert_eq!(encode_reply(&Reply::Integer(-7), true), JsonValue::Int(-7));
    assert_eq!(encode_reply(&Reply::Nil, false), JsonValue::Null);
}

#[test]
fn arrays_are_encoded_item_by_item() {
    let r = Reply::Array(vec![
        Reply::BulkString(b"a".to_vec()),
        Reply::Array(vec![Reply::Integer(1), Reply::Nil]),
        Reply::BulkString(vec![0xC3]),
    ]);
    assert_eq!(
        encode_reply(&r, false),
        JsonValue::Array(vec![
            js("a"),
            JsonValue::Array(vec![JsonValue::Int(1), JsonValue::Null]),
            JsonValue::Null,
        ])
    );
    assert_eq!(
        encode_reply(&r, true),
        JsonValue::Array(vec![
            js("YQ=="),
            JsonValue::Array(vec![JsonValue::Int(1), JsonValue::Null]),
            js("ww=="),
        ])
    );
}

#[test]
fn encoding_names() {
    assert!(encoding_is_base64("base64"));
    assert!(!encoding_is_base64("BASE64"));
    assert!(!encoding_is_base64("utf-8"));
}

#[test]
fn replies_fit() {
    let r = Reply::Array(vec![Reply::Status("x".to_string()), Reply::BulkString(vec![1, 2])]);
    assert!(r.within_limits());
}
