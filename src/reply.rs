//! Replies of the store, and how they are written as JSON.
use vstd::prelude::*;
use crate::json::JsonValue;
use crate::text::chars_of;
use base64::Engine;
use vstd::utf8::{decode_utf8, encode_utf8, valid_utf8};

verus! {

/// A reply of the store, one variant for each kind of reply on the wire.
#[derive(Debug, PartialEq)]
pub enum Reply {
    Status(String),
    Integer(i64),
    BulkString(Vec<u8>),
    Array(Vec<Reply>),
    Nil,
    Okay,
}

/// The standard base64 text, with padding, of `bytes`.
pub uninterp spec fn base64_of(bytes: Seq<u8>) -> Seq<char>;

/// Relies on base64's `general_purpose::STANDARD` engine (`Engine::encode`):
/// standard alphabet, padded, so four characters for each started group of
/// three bytes. Its buffer size is computed with checked arithmetic that a
/// length up to `isize::MAX` cannot overflow.
#[verifier::external_body]
fn base64_encode(b: &[u8]) -> (r: String)
    requires
        b@.len() <= isize::MAX,
    ensures
        r@ == base64_of(b@),
        r@.len() == 4 * ((b@.len() + 2) / 3),
{
    base64::engine::general_purpose::STANDARD.encode(b)
}

/// Relies on `String::from_utf8`: it succeeds exactly on valid UTF-8, and
/// then holds the characters that the bytes encode.
#[verifier::external_body]
pub(crate) fn utf8_text(b: &[u8]) -> (r: Option<String>)
    ensures
        r is Some <==> valid_utf8(b@),
        r matches Some(s) ==> s@ == decode_utf8(b@),
{
    String::from_utf8(b.to_vec()).ok()
}

/// The two ways of writing a reply as JSON: base64 keeps every byte of a
/// binary string; text drops a string that is not UTF-8.
pub open spec fn is_base64_name(encoding: Seq<char>) -> bool {
    encoding == seq!['b', 'a', 's', 'e', '6', '4']
}

impl Reply {
    /// Every string in the reply is short enough to be encoded: no more
    /// bytes than `isize::MAX`, which any value in memory meets.
    pub open spec fn fits(self) -> bool
        decreases self,
    {
        match self {
            Reply::Status(s) => encode_utf8(s@).len() <= isize::MAX,
            Reply::BulkString(b) => b@.len() <= isize::MAX,
            Reply::Array(items) => forall|i: int|
                0 <= i < items.len() ==> (#[trigger] items@[i]).fits(),
            _ => true,
        }
    }

    /// Whether `fits` holds.
    pub fn within_limits(&self) -> (b: bool)
        ensures
            b == self.fits(),
        decreases *self,
    {
        match self {
            Reply::Status(s) => s.as_str().as_bytes().len() <= isize::MAX as usize,
            Reply::BulkString(b) => b.len() <= isize::MAX as usize,
            Reply::Array(items) => {
                let mut i: usize = 0;
                while i < items.len()
                    invariant
                        i <= items@.len(),
                        *self == Reply::Array(*items),
                        forall|j: int| 0 <= j < i ==> (#[trigger] items@[j]).fits(),
                    decreases items@.len() - i,
                {
                    proof {
                        broadcast use vstd::std_specs::vec::axiom_vec_index_decreases;
                        assert(decreases_to!(*self => self->Array_0));
                        assert(decreases_to!(*items => items@[i as int]));
                        assert(decreases_to!(*self => items@[i as int]));
                    }
                    if !items[i].within_limits() {
                        return false;
                    }
                    i += 1;
                }
                true
            },
            _ => true,
        }
    }
}

/// `j` is the JSON form of `r`: a status is its text (base64 of its bytes
/// in base64 mode), `Ok` is `"OK"`, an integer is the same number, a binary
/// string is its base64 text in base64 mode and otherwise its text when it
/// is UTF-8 and null when not, an array is the array of the JSON forms of
/// its items in order, and nil is null.
pub open spec fn encodes(r: Reply, j: JsonValue, base64: bool) -> bool
    decreases r,
{
    match r {
        Reply::Status(s) => j matches JsonValue::String(t) && t@ == (if base64 {
            base64_of(encode_utf8(s@))
        } else {
            s@
        }),
        Reply::Integer(n) => j == JsonValue::Int(n),
        Reply::BulkString(b) => if base64 {
            j matches JsonValue::String(t) && t@ == base64_of(b@)
        } else if valid_utf8(b@) {
            j matches JsonValue::String(t) && t@ == decode_utf8(b@)
        } else {
            j == JsonValue::Null
        },
        Reply::Array(items) => j matches JsonValue::Array(js) && js@.len() == items@.len() && (
        forall|i: int| 0 <= i < items@.len() ==> encodes(#[trigger] items@[i], js@[i], base64)),
        Reply::Nil => j == JsonValue::Null,
        Reply::Okay => j matches JsonValue::String(t) && t@ == seq!['O', 'K'],
    }
}

/// The JSON form of `r` (see `encodes`).
pub fn encode_reply(r: &Reply, base64: bool) -> (j: JsonValue)
    requires
        r.fits(),
    ensures
        encodes(*r, j, base64),
    decreases *r,
{
    match r {
        Reply::Status(s) => {
            if base64 {
                JsonValue::String(base64_encode(s.as_str().as_bytes()))
            } else {
                JsonValue::String(s.clone())
            }
        },
        Reply::Integer(n) => JsonValue::Int(*n),
        Reply::BulkString(b) => {
            if base64 {
                JsonValue::String(base64_encode(b.as_slice()))
            } else {
                match utf8_text(b.as_slice()) {
                    Some(t) => JsonValue::String(t),
                    None => JsonValue::Null,
                }
            }
        },
        Reply::Array(items) => {
            let mut out: Vec<JsonValue> = Vec::new();
            let n = items.len();
            let mut i: usize = 0;
            while i < n
                invariant
                    i <= n,
                    n == items@.len(),
                    *r == Reply::Array(*items),
                    out@.len() == i,
                    forall|k: int| 0 <= k < n ==> (#[trigger] items@[k]).fits(),
                    forall|k: int| 0 <= k < i ==> encodes(#[trigger] items@[k], out@[k], base64),
                decreases n - i,
            {
                proof {
                    broadcast use vstd::std_specs::vec::axiom_vec_index_decreases;
                    assert(decreases_to!(*r => r->Array_0));
                        assert(decreases_to!(*items => items@[i as int]));
                        assert(decreases_to!(*r => items@[i as int]));
                }
                let j = encode_reply(&items[i], base64);
                out.push(j);
                i += 1;
            }
            JsonValue::Array(out)
        },
        Reply::Nil => JsonValue::Null,
        Reply::Okay => {
            let t = ['O', 'K'];
            JsonValue::String(crate::text::string_of(t.as_slice()))
        },
    }
}

/// Writes a reply as JSON, in base64 mode when `encoding` is `base64` and in
/// text mode otherwise.
pub fn redis_value_to_json(redis_value: Reply, encoding: &str) -> (j: JsonValue)
    requires
        redis_value.fits(),
    ensures
        encodes(redis_value, j, is_base64_name(encoding@)),
{
    let base64 = encoding_is_base64(encoding);
    encode_reply(&redis_value, base64)
}

/// Whether `encoding` names base64.
pub fn encoding_is_base64(encoding: &str) -> (b: bool)
    ensures
        b == is_base64_name(encoding@),
{
    let cs = chars_of(encoding);
    let ok = cs.len() == 6 && cs[0] == 'b' && cs[1] == 'a' && cs[2] == 's' && cs[3] == 'e' && cs[4]
        == '6' && cs[5] == '4';
    if ok {
        assert(cs@ =~= seq!['b', 'a', 's', 'e', '6', '4']);
    }
    ok
}

} // verus!
