use rediserve::argument::Argument;
use rediserve::text::{chars_of, parse_i64, split_path, trim_chars};
use rediserve::JsonValue;

#[test]
fn raw_integer_becomes_integer() {
    assert_eq!(Argument::from_text("42"), Argument::Integer(42));
}

#[test]
fn raw_true_becomes_boolean() {
    assert_eq!(Argument::from_text("true"), Argument::Boolean(true));
    assert_eq!(Argument::from_text("false"), Argument::Boolean(false));
}

#[test]
fn raw_word_stays_string() {
    assert_eq!(Argument::from_text("abc"), Argument::String("abc".to_string()));
    assert_eq!(Argument::from_text("True"), Argument::String("True".to_string()));
    assert_eq!(Argument::from_text(""), Argument::String(String::new()));
}

#[test]
fn raw_integer_edges() {
    assert_eq!(Argument::from_text("-9223372036854775808"), Argument::Integer(i64::MIN));
    assert_eq!(Argument::from_text("9223372036854775807"), Argument::Integer(i64::MAX));
    assert_eq!(
        Argument::from_text("9223372036854775808"),
        Argument::String("9223372036854775808".to_string())
    );
    assert_eq!(Argument::from_text("+7"), Argument::Integer(7));
    assert_eq!(Argument::from_text("-"), Argument::String("-".to_string()));
    assert_eq!(Argument::from_text("1.5"), Argument::String("1.5".to_string()));
}

#[test]
fn json_fraction_becomes_its_text() {
    let v = JsonValue::Number("3.14".to_string());
    assert_eq!(Argument::from_json(&v), Argument::String("3.14".to_string()));
}

#[test]
fn json_scalars_keep_their_kind() {
    assert_eq!(Argument::from_json(&JsonValue::Int(-3)), Argument::Integer(-3));
    assert_eq!(Argument::from_json(&JsonValue::Bool(true)), Argument::Boolean(true));
    assert_eq!(
        Argument::from_json(&JsonValue::String("42".to_string())),
        Argument::String("42".to_string())
    );
}

#[test]
fn json_null_and_containers_become_null() {
    assert_eq!(Argument::from_json(&JsonValue::Null), Argument::Null);
    assert_eq!(Argument::from_json(&JsonValue::Array(vec![JsonValue::Int(1)])), Argument::Null);
    assert_eq!(Argument::from_json(&JsonValue::Object(vec![])), Argument::Null);
}

#[test]
fn coercion_is_deterministic() {
    assert_eq!(Argument::from_text("17"), Argument::from_text("17"));
    assert_eq!(Argument::from_text("x"), Argument::from_text("x"));
}

#[test]
fn wire_encoding_of_each_variant() {
    assert_eq!(Argument::Integer(-12).to_redis_args(), vec![b"-12".to_vec()]);
    assert_eq!(Argument::Integer(i64::MIN).to_redis_args(), vec![b"-9223372036854775808".to_vec()]);
    assert_eq!(Argument::Boolean(true).to_redis_args(), vec![b"1".to_vec()]);
    assert_eq!(Argument::Boolean(false).to_redis_args(), vec![b"0".to_vec()]);
    assert_eq!(Argument::String("héllo".to_string()).to_redis_args(), vec!["héllo".as_bytes().to_vec()]);
    assert_eq!(Argument::Null.to_redis_args(), vec![Vec::<u8>::new()]);
}

#[test]
fn parse_i64_follows_rust() {
    assert_eq!(parse_i64(&chars_of("0042")), Some(42));
    assert_eq!(parse_i64(&chars_of("-0")), Some(0));
    assert_eq!(parse_i64(&chars_of("")), None);
    assert_eq!(parse_i64(&chars_of("+")), None);
    assert_eq!(parse_i64(&chars_of(" 1")), None);
    assert_eq!(parse_i64(&chars_of("99999999999999999999999")), None);
}

#[test]
fn split_path_drops_empty_and_trims() {
    let segs = split_path("/ get //k/");
    assert_eq!(segs, vec!["get".to_string(), "k".to_string()]);
    assert_eq!(split_path(""), Vec::<String>::new());
    assert_eq!(split_path("a/ /b"), vec!["a".to_string(), "".to_string(), "b".to_string()]);
}

#[test]
fn trim_quotes_and_spaces() {
    let q: Vec<char> = trim_chars(&chars_of("\"\"get\""), true);
    assert_eq!(q.iter().collect::<String>(), "get");
    let s: Vec<char> = trim_chars(&chars_of("\t x y \u{3000}"), false);
    assert_eq!(s.iter().collect::<String>(), "x y");
}
