use std::collections::HashMap;

use rediserve::dispatch::plan_transaction;
use rediserve::input::{normalize_batch, normalize_command, ApiInputValue};
use rediserve::response::TransactionApiResponseType;
use rediserve::{ApiResponse, Command, JsonValue, Reply, ResponseBuilder};

/// A stand-in for the store: SET and GET on a map.
fn run(db: &mut HashMap<Vec<u8>, Vec<u8>>, c: &Command) -> Reply {
    let wire = c.wire_args();
    match wire[0].to_ascii_uppercase().as_slice() {
        b"SET" => {
            db.insert(wire[1].clone(), wire[2].clone());
            Reply::Okay
        }
        b"GET" => match db.get(&wire[1]) {
            Some(v) => Reply::BulkString(v.clone()),
            None => Reply::Nil,
        },
        _ => Reply::Nil,
    }
}

fn s(x: &str) -> JsonValue {
    JsonValue::String(x.to_string())
}

fn ok(x: &str) -> ApiResponse {
    ApiResponse { result: Some(s(x)), error: None }
}

fn token() -> Vec<(String, String)> {
    vec![("_token".to_string(), "secret".to_string())]
}

#[test]
fn test_post_command() {
    let mut db = HashMap::new();
    let b = ResponseBuilder::new("utf-8".to_string());
    let c = normalize_command(None, &token(), &ApiInputValue::List(vec![s("set"), s("k"), s("v")]))
        .unwrap();
    assert_eq!(b.build(Ok(run(&mut db, &c))), ok("OK"));
    let c = normalize_command(None, &token(), &ApiInputValue::List(vec![s("get"), s("k")])).unwrap();
    assert_eq!(b.build(Ok(run(&mut db, &c))), ok("v"));
}

#[test]
fn test_path_command() {
    let mut db = HashMap::new();
    let b = ResponseBuilder::new("utf-8".to_string());
    let c = normalize_command(Some("set/key1/value1"), &token(), &ApiInputValue::Empty).unwrap();
    assert_eq!(b.build(Ok(run(&mut db, &c))), ok("OK"));
    let c = normalize_command(Some("get/key1"), &token(), &ApiInputValue::Empty).unwrap();
    assert_eq!(b.build(Ok(run(&mut db, &c))), ok("value1"));
}

#[test]
fn test_post_command_with_path() {
    let mut db = HashMap::new();
    let b = ResponseBuilder::new("utf-8".to_string());
    let c = normalize_command(Some("set/key2"), &token(), &ApiInputValue::Single(s("value2"))).unwrap();
    assert_eq!(b.build(Ok(run(&mut db, &c))), ok("OK"));
    let c = normalize_command(Some("get/key2"), &token(), &ApiInputValue::Empty).unwrap();
    assert_eq!(b.build(Ok(run(&mut db, &c))), ok("value2"));
}

#[test]
fn test_pipeline_route() {
    let mut db = HashMap::new();
    let b = ResponseBuilder::new("utf-8".to_string());
    let items = vec![vec![s("SET"), s("pk"), s("pv")], vec![s("GET"), s("pk")]];
    let results: Vec<_> = normalize_batch(&items)
        .into_iter()
        .map(|e| e.map(|c| run(&mut db, &c)))
        .collect();
    let out = b.build_pipeline(results);
    assert_eq!(out.0, vec![ok("OK"), ok("pv")]);
}

#[test]
fn multi_exec_success_is_an_array() {
    let mut db = HashMap::new();
    let b = ResponseBuilder::new("utf-8".to_string());
    let items = vec![vec![s("set"), s("k"), s("v")], vec![s("get"), s("k")]];
    let commands = plan_transaction(normalize_batch(&items)).unwrap();
    let replies: Vec<Reply> = commands.iter().map(|c| run(&mut db, c)).collect();
    let t = b.build_transaction(Ok(Reply::Array(replies)));
    assert_eq!(t.0, TransactionApiResponseType::TransactionResponse(vec![ok("OK"), ok("v")]));
}

#[test]
fn wire_args_of_a_command() {
    let c = normalize_command(Some("set/k/10"), &[], &ApiInputValue::Empty).unwrap();
    assert_eq!(c.wire_args(), vec![b"set".to_vec(), b"k".to_vec(), b"10".to_vec()]);
    assert_eq!(c.name_str(), "set");
}
