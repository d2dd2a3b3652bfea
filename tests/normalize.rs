use rediserve::argument::Argument;
use rediserve::dispatch::plan_transaction;
use rediserve::input::{
    body_kind, name_of_element, normalize_batch, normalize_command, ApiInput, ApiInputValue,
    BodyKind,
};
use rediserve::response::ResponseBuilder;
use rediserve::{ApiError, JsonValue};

fn s(x: &str) -> JsonValue {
    JsonValue::String(x.to_string())
}

fn text(x: &str) -> Argument {
    Argument::String(x.to_string())
}

#[test]
fn path_gives_name_and_arguments() {
    let c = normalize_command(Some("set/k/42"), &[], &ApiInputValue::Empty).unwrap();
    assert_eq!(c.name, "set");
    assert_eq!(c.args, vec![text("k"), Argument::Integer(42)]);
}

#[test]
fn json_body_without_path_names_the_command() {
    let body = ApiInputValue::List(vec![s("set"), s("k"), s("v")]);
    let c = normalize_command(None, &[], &body).unwrap();
    assert_eq!(c.name, "set");
    assert_eq!(c.args, vec![text("k"), text("v")]);
}

#[test]
fn quoted_name_is_unquoted() {
    let body = ApiInputValue::List(vec![s("\"get\""), s("k")]);
    let c = normalize_command(None, &[], &body).unwrap();
    assert_eq!(c.name, "get");
}

#[test]
fn json_body_after_path_appends_arguments() {
    let body = ApiInputValue::List(vec![JsonValue::Int(5), JsonValue::Number("2.5".to_string())]);
    let c = normalize_command(Some("/set/k"), &[], &body).unwrap();
    assert_eq!(c.name, "set");
    assert_eq!(c.args, vec![text("k"), Argument::Integer(5), text("2.5")]);
}

#[test]
fn text_body_after_path_is_one_opaque_argument() {
    let body = ApiInputValue::Single(s("42 and more"));
    let c = normalize_command(Some("set/k"), &[], &body).unwrap();
    assert_eq!(c.args, vec![text("k"), text("42 and more")]);
}

#[test]
fn text_body_without_path_is_no_command() {
    let body = ApiInputValue::Single(s("get"));
    assert_eq!(normalize_command(None, &[], &body), Err(ApiError::NoCommand));
}

#[test]
fn empty_json_body_is_no_command() {
    let body = ApiInputValue::List(vec![]);
    let r = normalize_command(None, &[], &body);
    assert_eq!(r, Err(ApiError::NoCommand));
    let envelope = ResponseBuilder::error(r.unwrap_err());
    assert_eq!(envelope.result, None);
    assert_eq!(envelope.error, Some("no command provided".to_string()));
}

#[test]
fn nothing_at_all_is_no_command() {
    let params = vec![("k".to_string(), "v".to_string())];
    assert_eq!(normalize_command(None, &params, &ApiInputValue::Empty), Err(ApiError::NoCommand));
    assert_eq!(normalize_command(Some("//"), &[], &ApiInputValue::Empty), Err(ApiError::NoCommand));
    assert_eq!(normalize_command(Some(" / "), &[], &ApiInputValue::Empty), Err(ApiError::NoCommand));
}

#[test]
fn query_parameters_append_key_then_value() {
    let params = vec![
        ("_token".to_string(), "secret".to_string()),
        ("EX".to_string(), "10".to_string()),
    ];
    let c = normalize_command(Some("set/k/v"), &params, &ApiInputValue::Empty).unwrap();
    assert_eq!(c.args, vec![text("k"), text("v"), text("EX"), Argument::Integer(10)]);
}

#[test]
fn element_names() {
    assert_eq!(name_of_element(&JsonValue::Int(-5)), "-5");
    assert_eq!(name_of_element(&JsonValue::Bool(false)), "false");
    assert_eq!(name_of_element(&JsonValue::Null), "null");
    assert_eq!(name_of_element(&JsonValue::Array(vec![])), "");
    let body = ApiInputValue::List(vec![JsonValue::Object(vec![])]);
    assert_eq!(normalize_command(None, &[], &body), Err(ApiError::NoCommand));
}

#[test]
fn batch_drops_empty_inner_arrays() {
    let items = vec![vec![], vec![s("GET"), s("k")]];
    let entries = normalize_batch(&items);
    assert_eq!(entries.len(), 1);
    let c = entries[0].as_ref().unwrap();
    assert_eq!(c.name, "GET");
    assert_eq!(c.args, vec![text("k")]);
}

#[test]
fn batch_keeps_order_and_length() {
    let items = vec![
        vec![s("SET"), s("a"), JsonValue::Int(1)],
        vec![s("GET"), s("a")],
        vec![s("INCR"), s("a")],
    ];
    let entries = normalize_batch(&items);
    let names: Vec<String> = entries.iter().map(|e| e.as_ref().unwrap().name.clone()).collect();
    assert_eq!(names, vec!["SET", "GET", "INCR"]);
}

#[test]
fn batch_entry_with_empty_name_is_no_command() {
    let items = vec![vec![s("")], vec![s("PING")]];
    let entries = normalize_batch(&items);
    assert_eq!(entries.len(), 2);
    assert_eq!(entries[0], Err(ApiError::NoCommand));
    assert!(entries[1].is_ok());
}

#[test]
fn transaction_with_invalid_entry_is_refused() {
    let items = vec![vec![s("SET"), s("a"), s("1")], vec![s("\"\"")], vec![s("GET"), s("a")]];
    let plan = plan_transaction(normalize_batch(&items));
    assert_eq!(plan, Err(ApiError::NoCommand));
    let valid = vec![vec![s("SET"), s("a"), s("1")], vec![s("GET"), s("a")]];
    let plan = plan_transaction(normalize_batch(&valid)).unwrap();
    assert_eq!(plan.len(), 2);
    assert_eq!(plan[1].name, "GET");
}

#[test]
fn content_types() {
    assert_eq!(body_kind(None), BodyKind::Absent);
    assert_eq!(body_kind(Some(b"application/json")), BodyKind::Json);
    assert_eq!(body_kind(Some(b"text/plain")), BodyKind::Text);
    assert_eq!(body_kind(Some(b"application/json; charset=utf-8")), BodyKind::Text);
}

#[test]
fn text_bodies_must_be_utf8() {
    let ok = ApiInput::from_text("hé".as_bytes()).unwrap();
    assert_eq!(ok.0, ApiInputValue::Single(s("hé")));
    assert!(matches!(ApiInput::from_text(&[0xff, 0xfe]), Err(ApiError::InvalidInput)));
}
