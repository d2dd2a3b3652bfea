//! Typed command arguments, and how raw input becomes one.
use vstd::prelude::*;
use crate::json::JsonValue;
use crate::text::{chars_of, decimal_bytes, parse_i64, parsed_i64};
use vstd::utf8::encode_utf8;

verus! {

/// One argument of a command. The variant fixes how it is written to the
/// store: an integer or a boolean natively, a string as its bytes, `Null`
/// as the empty string.
#[derive(Debug, PartialEq)]
pub enum Argument {
    Integer(i64),
    Boolean(bool),
    String(String),
    Null,
}

/// What an argument is, with its text as characters.
pub enum ArgumentView {
    Integer(i64),
    Boolean(bool),
    String(Seq<char>),
    Null,
}

impl View for Argument {
    type V = ArgumentView;

    open spec fn view(&self) -> ArgumentView {
        match self {
            Argument::Integer(n) => ArgumentView::Integer(*n),
            Argument::Boolean(b) => ArgumentView::Boolean(*b),
            Argument::String(s) => ArgumentView::String(s@),
            Argument::Null => ArgumentView::Null,
        }
    }
}

pub open spec fn true_chars() -> Seq<char> {
    seq!['t', 'r', 'u', 'e']
}

pub open spec fn false_chars() -> Seq<char> {
    seq!['f', 'a', 'l', 's', 'e']
}

/// The argument that a raw text token (a path segment, a query key or value)
/// stands for: an integer if it reads as an `i64`, else a boolean if it is
/// exactly `true` or `false`, else the text itself.
pub open spec fn coerce_text(s: Seq<char>) -> ArgumentView {
    match parsed_i64(s) {
        Some(n) => ArgumentView::Integer(n),
        None => if s == true_chars() {
            ArgumentView::Boolean(true)
        } else if s == false_chars() {
            ArgumentView::Boolean(false)
        } else {
            ArgumentView::String(s)
        },
    }
}

/// The argument that a JSON element of a body stands for: a string stays a
/// string, an integral number is an integer, any other number is its decimal
/// text, a boolean stays one, and null, arrays and objects are `Null`.
pub open spec fn coerce_json(v: JsonValue) -> ArgumentView {
    match v {
        JsonValue::String(s) => ArgumentView::String(s@),
        JsonValue::Int(n) => ArgumentView::Integer(n),
        JsonValue::Number(t) => ArgumentView::String(t@),
        JsonValue::Bool(b) => ArgumentView::Boolean(b),
        _ => ArgumentView::Null,
    }
}

/// The bytes by which an argument goes to the store.
pub open spec fn wire_bytes(a: ArgumentView) -> Seq<u8> {
    match a {
        ArgumentView::Integer(n) => decimal_bytes(n as int),
        ArgumentView::Boolean(b) => if b {
            seq![49u8]
        } else {
            seq![48u8]
        },
        ArgumentView::String(s) => encode_utf8(s),
        ArgumentView::Null => Seq::empty(),
    }
}

/// Relies on redis's `ToRedisArgs` for `i64`: one argument, the number's
/// base-ten text (written with itoa).
#[verifier::external_body]
fn redis_args_of_int(n: i64) -> (r: Vec<Vec<u8>>)
    ensures
        r@.len() == 1,
        r@[0]@ == decimal_bytes(n as int),
{
    redis::ToRedisArgs::to_redis_args(&n)
}

/// Relies on redis's `ToRedisArgs` for `bool`: one argument, `1` or `0`.
#[verifier::external_body]
fn redis_args_of_bool(b: bool) -> (r: Vec<Vec<u8>>)
    ensures
        r@.len() == 1,
        r@[0]@ == (if b {
            seq![49u8]
        } else {
            seq![48u8]
        }),
{
    redis::ToRedisArgs::to_redis_args(&b)
}

/// Relies on redis's `ToRedisArgs` for `&str`: one argument, the UTF-8 bytes
/// of the text.
#[verifier::external_body]
pub(crate) fn redis_args_of_str(s: &str) -> (r: Vec<Vec<u8>>)
    ensures
        r@.len() == 1,
        r@[0]@ == encode_utf8(s@),
{
    redis::ToRedisArgs::to_redis_args(&s)
}

fn is_word(cs: &Vec<char>, word: &[char]) -> (b: bool)
    ensures
        b == (cs@ == word@),
{
    if cs.len() != word.len() {
        return false;
    }
    let mut i: usize = 0;
    while i < cs.len()
        invariant
            i <= cs@.len(),
            cs@.len() == word@.len(),
            forall|j: int| 0 <= j < i ==> cs@[j] == word@[j],
        decreases cs@.len() - i,
    {
        if cs[i] != word[i] {
            return false;
        }
        i += 1;
    }
    assert(cs@ =~= word@);
    true
}

impl Argument {
    /// The argument that a raw text token stands for (see `coerce_text`).
    pub fn from_text(s: &str) -> (r: Argument)
        ensures
            r@ == coerce_text(s@),
    {
        let cs = chars_of(s);
        match parse_i64(cs.as_slice()) {
            Some(n) => Argument::Integer(n),
            None => {
                let t = ['t', 'r', 'u', 'e'];
                let f = ['f', 'a', 'l', 's', 'e'];
                assert(t@ =~= true_chars());
                assert(f@ =~= false_chars());
                if is_word(&cs, t.as_slice()) {
                    Argument::Boolean(true)
                } else if is_word(&cs, f.as_slice()) {
                    Argument::Boolean(false)
                } else {
                    Argument::String(s.to_owned())
                }
            },
        }
    }

    /// The argument that a JSON element stands for (see `coerce_json`).
    pub fn from_json(v: &JsonValue) -> (r: Argument)
        ensures
            r@ == coerce_json(*v),
    {
        match v {
            JsonValue::String(s) => Argument::String(s.clone()),
            JsonValue::Int(n) => Argument::Integer(*n),
            JsonValue::Number(t) => Argument::String(t.clone()),
            JsonValue::Bool(b) => Argument::Boolean(*b),
            _ => Argument::Null,
        }
    }

    /// The store arguments that this argument writes: exactly one, its
    /// `wire_bytes`.
    pub fn to_redis_args(&self) -> (r: Vec<Vec<u8>>)
        ensures
            r@.len() == 1,
            r@[0]@ == wire_bytes(self@),
    {
        match self {
            Argument::Integer(n) => redis_args_of_int(*n),
            Argument::Boolean(b) => redis_args_of_bool(*b),
            Argument::String(s) => redis_args_of_str(s.as_str()),
            Argument::Null => {
                let r = redis_args_of_str("");
                proof {
                    reveal_strlit("");
                    assert(encode_utf8(""@) =~= Seq::empty());
                }
                r
            },
        }
    }
}

} // verus!
