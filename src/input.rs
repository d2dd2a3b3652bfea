//! How a request becomes commands: the path, the body and the query
//! parameters of a single-command request, or the body of a batch.
use vstd::prelude::*;
use crate::argument::{coerce_json, coerce_text, false_chars, true_chars, Argument, ArgumentView};
use crate::command::Command;
use crate::error::ApiError;
use crate::json::JsonValue;
use crate::reply::utf8_text;
use vstd::utf8::{decode_utf8, valid_utf8};
use crate::text::{
    chars_of, decimal, int_text, path_segments, split_path, string_of, trim_chars, trimmed,
    views_of,
};

verus! {

/// The body of a single-command request: one text value (any content type
/// but JSON), a JSON array, or nothing.
#[derive(Debug, PartialEq)]
pub enum ApiInputValue {
    Single(JsonValue),
    List(Vec<JsonValue>),
    Empty,
}

/// The body of a single-command request.
#[derive(Debug, PartialEq)]
pub struct ApiInput(pub ApiInputValue);

/// A command as a name and the views of its arguments.
pub struct CommandView {
    pub name: Seq<char>,
    pub args: Seq<ArgumentView>,
}

pub open spec fn arg_views(v: Seq<Argument>) -> Seq<ArgumentView> {
    v.map_values(|a: Argument| a@)
}

impl View for Command {
    type V = CommandView;

    open spec fn view(&self) -> CommandView {
        CommandView { name: self.name@, args: arg_views(self.args@) }
    }
}

pub open spec fn null_chars() -> Seq<char> {
    seq!['n', 'u', 'l', 'l']
}

/// The text from which a JSON element names a command: a string its
/// characters, a number or a literal its JSON text, an array or an object
/// nothing.
pub open spec fn name_text(v: JsonValue) -> Seq<char> {
    match v {
        JsonValue::String(s) => s@,
        JsonValue::Int(n) => decimal(n as int),
        JsonValue::Number(t) => t@,
        JsonValue::Bool(b) => if b {
            true_chars()
        } else {
            false_chars()
        },
        JsonValue::Null => null_chars(),
        _ => Seq::empty(),
    }
}

/// The command name that a JSON element gives: its text without the double
/// quotes around it.
pub open spec fn element_name(v: JsonValue) -> Seq<char> {
    trimmed(name_text(v), true)
}

pub open spec fn json_args(vs: Seq<JsonValue>) -> Seq<ArgumentView> {
    vs.map_values(|v: JsonValue| coerce_json(v))
}

/// A query parameter whose key starts with `_` is reserved (for the token)
/// and is no argument.
pub open spec fn is_reserved(key: Seq<char>) -> bool {
    key.len() > 0 && key[0] == '_'
}

/// Each parameter that is not reserved gives two arguments, its key and
/// then its value, in the order given.
pub open spec fn param_args(params: Seq<(String, String)>) -> Seq<ArgumentView>
    decreases params.len(),
{
    if params.len() == 0 {
        Seq::empty()
    } else {
        let rest = param_args(params.drop_last());
        let (k, v) = params.last();
        if is_reserved(k@) {
            rest
        } else {
            rest + seq![coerce_text(k@), coerce_text(v@)]
        }
    }
}

/// The name that the path and body give (empty when they give none).
pub open spec fn request_name(path: Option<Seq<char>>, body: ApiInputValue) -> Seq<char> {
    match path {
        Some(p) => if path_segments(p).len() > 0 {
            path_segments(p)[0]
        } else {
            Seq::empty()
        },
        None => match body {
            ApiInputValue::List(vs) => if vs@.len() > 0 {
                element_name(vs@[0])
            } else {
                Seq::empty()
            },
            _ => Seq::empty(),
        },
    }
}

/// The arguments that the path and the body give, in that order: the path
/// segments after the first; then, with a path, the single text body or
/// each element of a JSON array body; without a path, the elements of the
/// array after the name.
pub open spec fn request_args(path: Option<Seq<char>>, body: ApiInputValue) -> Seq<ArgumentView> {
    match path {
        Some(p) => {
            let segs = if path_segments(p).len() > 0 {
                path_segments(p).drop_first()
            } else {
                Seq::empty()
            };
            segs.map_values(|s: Seq<char>| coerce_text(s)) + match body {
                ApiInputValue::Single(v) => seq![coerce_json(v)],
                ApiInputValue::List(vs) => json_args(vs@),
                ApiInputValue::Empty => Seq::empty(),
            }
        },
        None => match body {
            ApiInputValue::List(vs) => if vs@.len() > 0 {
                json_args(vs@.drop_first())
            } else {
                Seq::empty()
            },
            _ => Seq::empty(),
        },
    }
}

/// The command of a single-command request, or `None` when it names no
/// command (the `NoCommand` error). Query parameters only add arguments;
/// they never name the command.
pub open spec fn request_command(
    path: Option<Seq<char>>,
    body: ApiInputValue,
    params: Seq<(String, String)>,
) -> Option<CommandView> {
    let name = request_name(path, body);
    if name.len() == 0 {
        None
    } else {
        Some(CommandView { name, args: request_args(path, body) + param_args(params) })
    }
}

pub open spec fn opt_view(path: Option<&str>) -> Option<Seq<char>> {
    match path {
        Some(p) => Some(p@),
        None => None,
    }
}

fn name_text_of(v: &JsonValue) -> (r: String)
    ensures
        r@ == name_text(*v),
{
    match v {
        JsonValue::String(s) => s.clone(),
        JsonValue::Int(n) => int_text(*n),
        JsonValue::Number(t) => t.clone(),
        JsonValue::Bool(b) => {
            if *b {
                let t = ['t', 'r', 'u', 'e'];
                assert(t@ =~= true_chars());
                string_of(t.as_slice())
            } else {
                let f = ['f', 'a', 'l', 's', 'e'];
                assert(f@ =~= false_chars());
                string_of(f.as_slice())
            }
        },
        JsonValue::Null => {
            let n = ['n', 'u', 'l', 'l'];
            assert(n@ =~= null_chars());
            string_of(n.as_slice())
        },
        _ => String::new(),
    }
}

/// The command name that a JSON element gives (see `element_name`).
pub fn name_of_element(v: &JsonValue) -> (r: String)
    ensures
        r@ == element_name(*v),
{
    let text = name_text_of(v);
    let cs = chars_of(text.as_str());
    let t = trim_chars(cs.as_slice(), true);
    string_of(t.as_slice())
}

/// Appends the arguments of `vs[from..]`, each coerced as a JSON element.
fn push_json_args(args: &mut Vec<Argument>, vs: &Vec<JsonValue>, from: usize)
    requires
        from <= vs@.len(),
    ensures
        arg_views(final(args)@) == arg_views(old(args)@) + json_args(vs@.subrange(
            from as int,
            vs@.len() as int,
        )),
{
    let n = vs.len();
    let mut i: usize = from;
    while i < n
        invariant
            from <= i <= n,
            n == vs@.len(),
            arg_views(args@) == arg_views(old(args)@) + json_args(vs@.subrange(
                from as int,
                i as int,
            )),
        decreases n - i,
    {
        let a = Argument::from_json(&vs[i]);
        let ghost before = args@;
        args.push(a);
        assert(arg_views(args@) =~= arg_views(before).push(a@));
        assert(json_args(vs@.subrange(from as int, i + 1)) =~= json_args(
            vs@.subrange(from as int, i as int),
        ).push(coerce_json(vs@[i as int])));
        i += 1;
    }
}

/// Appends the key and value of each parameter that is not reserved.
fn push_param_args(args: &mut Vec<Argument>, params: &[(String, String)])
    ensures
        arg_views(final(args)@) == arg_views(old(args)@) + param_args(params@),
{
    let n = params.len();
    let mut i: usize = 0;
    while i < n
        invariant
            i <= n,
            n == params@.len(),
            arg_views(args@) == arg_views(old(args)@) + param_args(params@.take(i as int)),
        decreases n - i,
    {
        let (k, v) = &params[i];
        assert(params@.take(i + 1).drop_last() =~= params@.take(i as int));
        let kc = chars_of(k.as_str());
        let reserved = kc.len() > 0 && kc[0] == '_';
        if !reserved {
            let ka = Argument::from_text(k.as_str());
            let va = Argument::from_text(v.as_str());
            let ghost before = args@;
            args.push(ka);
            args.push(va);
            assert(arg_views(args@) =~= arg_views(before) + seq![ka@, va@]);
        }
        i += 1;
    }
    assert(params@.take(n as int) =~= params@);
}

/// The command of a single-command request (see `request_command`), or
/// `NoCommand` when the request names none.
pub fn normalize_command(
    path: Option<&str>,
    params: &[(String, String)],
    payload: &ApiInputValue,
) -> (r: Result<Command, ApiError>)
    ensures
        match r {
            Ok(c) => request_command(opt_view(path), *payload, params@) == Some(c@) && c.wf(),
            Err(e) => request_command(opt_view(path), *payload, params@) is None && e
                is NoCommand,
        },
{
    let mut args: Vec<Argument> = Vec::new();
    let mut name = String::new();
    let ghost body = *payload;
    match path {
        Some(p) => {
            let segs = split_path(p);
            if segs.len() > 0 {
                name = segs[0].clone();
                let n = segs.len();
                let mut i: usize = 1;
                while i < n
                    invariant
                        1 <= i <= n,
                        n == segs@.len(),
                        views_of(segs@) == path_segments(p@),
                        arg_views(args@) == path_segments(p@).subrange(1, i as int).map_values(
                            |s: Seq<char>| coerce_text(s),
                        ),
                    decreases n - i,
                {
                    let a = Argument::from_text(segs[i].as_str());
                    let ghost before = args@;
                    args.push(a);
                    assert(views_of(segs@)[i as int] == segs@[i as int]@);
                    assert(arg_views(args@) =~= arg_views(before).push(a@));
                    assert(path_segments(p@).subrange(1, i + 1) =~= path_segments(p@).subrange(
                        1,
                        i as int,
                    ).push(path_segments(p@)[i as int]));
                    assert(arg_views(args@) =~= path_segments(p@).subrange(1, i + 1).map_values(
                        |s: Seq<char>| coerce_text(s),
                    ));
                    i += 1;
                }
                assert(path_segments(p@).subrange(1, n as int) =~= path_segments(p@).drop_first());
                assert(views_of(segs@)[0] == segs@[0]@);
            } else {
                assert(arg_views(args@) =~= Seq::<Seq<char>>::empty().map_values(
                    |s: Seq<char>| coerce_text(s),
                ));
            }
            match payload {
                ApiInputValue::Single(v) => {
                    let a = Argument::from_json(v);
                    let ghost before = args@;
                    args.push(a);
                    assert(arg_views(args@) =~= arg_views(before) + seq![a@]);
                },
                ApiInputValue::List(vs) => {
                    push_json_args(&mut args, vs, 0);
                    assert(vs@.subrange(0, vs@.len() as int) =~= vs@);
                },
                ApiInputValue::Empty => {
                    assert(arg_views(args@) =~= arg_views(args@) + Seq::<ArgumentView>::empty());
                },
            }
        },
        None => {
            match payload {
                ApiInputValue::List(vs) => {
                    if vs.len() == 0 {
                        return Err(ApiError::NoCommand);
                    }
                    name = name_of_element(&vs[0]);
                    push_json_args(&mut args, vs, 1);
                    assert(vs@.subrange(1, vs@.len() as int) =~= vs@.drop_first());
                    assert(arg_views(args@) =~= json_args(vs@.drop_first()));
                },
                _ => {
                    return Err(ApiError::NoCommand);
                },
            }
        },
    }
    if name.as_str().is_empty() {
        return Err(ApiError::NoCommand);
    }
    push_param_args(&mut args, params);
    Ok(Command { name, args })
}

/// The command that one non-empty inner array of a batch gives: its first
/// element names it and the others are its arguments; `None` when the name
/// is empty.
pub open spec fn batch_entry(vs: Seq<JsonValue>) -> Option<CommandView> {
    let name = element_name(vs[0]);
    if name.len() == 0 {
        None
    } else {
        Some(CommandView { name, args: json_args(vs.drop_first()) })
    }
}

/// One entry for each non-empty inner array, in order; empty inner arrays
/// give nothing.
pub open spec fn batch_entries(items: Seq<Vec<JsonValue>>) -> Seq<Option<CommandView>>
    decreases items.len(),
{
    if items.len() == 0 {
        Seq::empty()
    } else {
        let rest = batch_entries(items.drop_last());
        if items.last()@.len() > 0 {
            rest.push(batch_entry(items.last()@))
        } else {
            rest
        }
    }
}

/// `r` holds the command `v` describes, or `NoCommand` where `v` is `None`.
pub open spec fn entry_matches(r: Result<Command, ApiError>, v: Option<CommandView>) -> bool {
    match r {
        Ok(c) => v == Some(c@) && c.wf(),
        Err(e) => v is None && e is NoCommand,
    }
}

/// The command of one non-empty inner array of a batch (see `batch_entry`).
pub fn command_from_entry(vs: &Vec<JsonValue>) -> (r: Result<Command, ApiError>)
    requires
        vs@.len() > 0,
    ensures
        entry_matches(r, batch_entry(vs@)),
{
    let name = name_of_element(&vs[0]);
    if name.as_str().is_empty() {
        return Err(ApiError::NoCommand);
    }
    let mut args: Vec<Argument> = Vec::new();
    push_json_args(&mut args, vs, 1);
    assert(vs@.subrange(1, vs@.len() as int) =~= vs@.drop_first());
    assert(arg_views(args@) =~= json_args(vs@.drop_first()));
    Ok(Command { name, args })
}

/// The commands of a batch body (see `batch_entries`), one entry for each
/// non-empty inner array, in order.
pub fn normalize_batch(items: &Vec<Vec<JsonValue>>) -> (r: Vec<Result<Command, ApiError>>)
    ensures
        r@.len() == batch_entries(items@).len(),
        forall|i: int| 0 <= i < r@.len() ==> entry_matches(#[trigger] r@[i], batch_entries(items@)[i]),
{
    let mut r: Vec<Result<Command, ApiError>> = Vec::new();
    let n = items.len();
    let mut i: usize = 0;
    while i < n
        invariant
            i <= n,
            n == items@.len(),
            r@.len() == batch_entries(items@.take(i as int)).len(),
            forall|k: int|
                0 <= k < r@.len() ==> entry_matches(
                    #[trigger] r@[k],
                    batch_entries(items@.take(i as int))[k],
                ),
        decreases n - i,
    {
        assert(items@.take(i + 1).drop_last() =~= items@.take(i as int));
        if items[i].len() > 0 {
            let e = command_from_entry(&items[i]);
            r.push(e);
        }
        i += 1;
    }
    assert(items@.take(n as int) =~= items@);
    r
}

} // verus!

verus! {

/// A batch without empty inner arrays gives one entry per inner array, each
/// from the inner array at the same position.
pub proof fn lemma_batch_keeps_order(items: Seq<Vec<JsonValue>>)
    requires
        forall|i: int| 0 <= i < items.len() ==> (#[trigger] items[i])@.len() > 0,
    ensures
        batch_entries(items).len() == items.len(),
        forall|i: int|
            0 <= i < items.len() ==> #[trigger] batch_entries(items)[i] == batch_entry(items[i]@),
    decreases items.len(),
{
    if items.len() > 0 {
        let p = items.drop_last();
        assert forall|i: int| 0 <= i < p.len() implies (#[trigger] p[i])@.len() > 0 by {
            assert(p[i] == items[i]);
        }
        lemma_batch_keeps_order(p);
        assert(items[items.len() - 1]@.len() > 0);
        assert forall|i: int| 0 <= i < items.len() implies #[trigger] batch_entries(items)[i]
            == batch_entry(items[i]@) by {
            if i < items.len() - 1 {
                assert(p[i] == items[i]);
            }
        }
    }
}

/// Empty inner arrays of a batch give no entry: the entries are those of
/// the batch with the empty inner arrays taken out.
pub proof fn lemma_batch_drops_empty(items: Seq<Vec<JsonValue>>, i: int)
    requires
        0 <= i < items.len(),
        items[i]@.len() == 0,
    ensures
        batch_entries(items) == batch_entries(items.remove(i)),
    decreases items.len(),
{
    if i == items.len() - 1 {
        assert(items.remove(i) =~= items.drop_last());
    } else {
        lemma_batch_drops_empty(items.drop_last(), i);
        assert(items.remove(i).drop_last() =~= items.drop_last().remove(i));
        assert(items.remove(i).last() == items.last());
    }
}

} // verus!

verus! {

/// How a request's body is read, by its content type.
#[derive(Debug, PartialEq)]
pub enum BodyKind {
    /// No content type: no body.
    Absent,
    /// `application/json`: a JSON array.
    Json,
    /// Anything else: one opaque text.
    Text,
}

pub open spec fn json_content_type() -> Seq<u8> {
    seq![
        97u8, 112u8, 112u8, 108u8, 105u8, 99u8, 97u8, 116u8, 105u8, 111u8, 110u8, 47u8, 106u8,
        115u8, 111u8, 110u8,
    ]
}

/// The way to read a body whose `Content-Type` header is `content_type`.
pub open spec fn kind_of_body(content_type: Option<Seq<u8>>) -> BodyKind {
    match content_type {
        None => BodyKind::Absent,
        Some(c) => if c == json_content_type() {
            BodyKind::Json
        } else {
            BodyKind::Text
        },
    }
}

/// The way to read a body (see `kind_of_body`).
pub fn body_kind(content_type: Option<&[u8]>) -> (r: BodyKind)
    ensures
        r == kind_of_body(
            match content_type {
                Some(c) => Some(c@),
                None => None,
            },
        ),
{
    match content_type {
        None => BodyKind::Absent,
        Some(c) => {
            let j: [u8; 16] = [
                97u8, 112u8, 112u8, 108u8, 105u8, 99u8, 97u8, 116u8, 105u8, 111u8, 110u8, 47u8,
                106u8, 115u8, 111u8, 110u8,
            ];
            assert(j@ =~= json_content_type());
            if c.len() != 16 {
                return BodyKind::Text;
            }
            let mut i: usize = 0;
            while i < 16
                invariant
                    i <= 16,
                    c@.len() == 16,
                    content_type == Some(c),
                    j@ == json_content_type(),
                    forall|k: int| 0 <= k < i ==> c@[k] == j@[k],
                decreases 16 - i,
            {
                if c[i] != j[i] {
                    assert(c@[i as int] != json_content_type()[i as int]);
                    return BodyKind::Text;
                }
                i += 1;
            }
            assert(c@ =~= j@);
            BodyKind::Json
        },
    }
}

impl ApiInput {
    /// The body of a request that is not JSON: one text value, or
    /// `InvalidInput` when the bytes are not UTF-8.
    pub fn from_text(body: &[u8]) -> (r: Result<ApiInput, ApiError>)
        ensures
            r is Ok <==> valid_utf8(body@),
            r matches Ok(input) ==> (input.0 matches ApiInputValue::Single(JsonValue::String(s))
                && s@ == decode_utf8(body@)),
            r matches Err(e) ==> e is InvalidInput,
    {
        match utf8_text(body) {
            Some(s) => Ok(ApiInput(ApiInputValue::Single(JsonValue::String(s)))),
            None => Err(ApiError::InvalidInput),
        }
    }
}

} // verus!
