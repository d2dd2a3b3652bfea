//! Whether a request may reach the store: the token of the server against
//! the bearer token of the request or its `_token` query parameter.
use vstd::prelude::*;
use crate::text::chars_of;
use vstd::utf8::encode_utf8;

verus! {

/// The name-value pairs, decoded, of an `application/x-www-form-urlencoded`
/// query, in order.
pub uninterp spec fn form_pairs(query: Seq<u8>) -> Seq<(Seq<char>, Seq<char>)>;

/// Relies on url's `form_urlencoded::parse` (with `into_owned`): the decoded
/// pairs of the query, in the order they stand in it.
#[verifier::external_body]
fn decode_query(query: &[u8]) -> (r: Vec<(String, String)>)
    ensures
        r@.len() == form_pairs(query@).len(),
        forall|i: int|
            0 <= i < r@.len() ==> (#[trigger] r@[i]).0@ == form_pairs(query@)[i].0 && r@[i].1@
                == form_pairs(query@)[i].1,
{
    url::form_urlencoded::parse(query).into_owned().collect()
}

pub open spec fn bearer_prefix() -> Seq<char> {
    seq!['B', 'e', 'a', 'r', 'e', 'r', ' ']
}

pub open spec fn token_key() -> Seq<char> {
    seq!['_', 't', 'o', 'k', 'e', 'n']
}

/// `s` with every leading copy of `p` removed.
pub open spec fn strip_prefixes(s: Seq<char>, p: Seq<char>) -> Seq<char>
    decreases s.len(),
{
    if p.len() > 0 && s.len() >= p.len() && s.take(p.len() as int) == p {
        strip_prefixes(s.skip(p.len() as int), p)
    } else {
        s
    }
}

/// The token of an `Authorization` header: what follows `Bearer `, when the
/// header starts so (repeated prefixes removed).
pub open spec fn bearer_token(header: Seq<char>) -> Option<Seq<char>> {
    let p = bearer_prefix();
    if header.len() >= p.len() && header.take(p.len() as int) == p {
        Some(strip_prefixes(header, p))
    } else {
        None
    }
}

/// The value of the first `_token` pair of a decoded query.
pub open spec fn first_token(pairs: Seq<(Seq<char>, Seq<char>)>) -> Option<Seq<char>>
    decreases pairs.len(),
{
    if pairs.len() == 0 {
        None
    } else if pairs[0].0 == token_key() {
        Some(pairs[0].1)
    } else {
        first_token(pairs.drop_first())
    }
}

/// A request is let through when the server has no token, when its bearer
/// token equals the server's, or when its first `_token` query parameter
/// does.
pub open spec fn authorized(
    expected: Option<Seq<char>>,
    header: Option<Seq<char>>,
    query: Seq<u8>,
) -> bool {
    match expected {
        None => true,
        Some(t) => {
            ||| (header matches Some(h) && bearer_token(h) == Some(t))
            ||| first_token(form_pairs(query)) == Some(t)
        },
    }
}

fn starts_with_at(s: &Vec<char>, at: usize, p: &[char]) -> (b: bool)
    requires
        at <= s@.len(),
    ensures
        b == (s@.len() - at >= p@.len() && s@.subrange(at as int, at + p@.len()) == p@),
{
    if s.len() - at < p.len() {
        return false;
    }
    let mut i: usize = 0;
    while i < p.len()
        invariant
            i <= p@.len(),
            at + p@.len() <= s@.len(),
            s@.len() <= usize::MAX,
            forall|j: int| 0 <= j < i ==> s@[at + j] == p@[j],
        decreases p@.len() - i,
    {
        if s[at + i] != p[i] {
            assert(s@.subrange(at as int, at + p@.len())[i as int] != p@[i as int]);
            return false;
        }
        i += 1;
    }
    assert(s@.subrange(at as int, at + p@.len()) =~= p@);
    true
}

fn same_chars(a: &Vec<char>, from: usize, b: &Vec<char>) -> (r: bool)
    requires
        from <= a@.len(),
    ensures
        r == (a@.skip(from as int) == b@),
{
    let ok = a.len() - from == b.len() && starts_with_at(a, from, b.as_slice());
    if ok {
        assert(a@.skip(from as int) =~= a@.subrange(from as int, from + b@.len()));
    } else if a.len() - from == b.len() {
        assert(a@.skip(from as int) =~= a@.subrange(from as int, from + b@.len()));
    } else {
        assert(a@.skip(from as int).len() != b@.len());
    }
    ok
}

/// Whether `header` carries the bearer token `t`.
fn bearer_matches(header: &str, t: &Vec<char>) -> (b: bool)
    ensures
        b == (bearer_token(header@) == Some(t@)),
{
    let p = ['B', 'e', 'a', 'r', 'e', 'r', ' '];
    assert(p@ =~= bearer_prefix());
    let hc = chars_of(header);
    if !starts_with_at(&hc, 0, p.as_slice()) {
        assert(hc@.subrange(0, 7) =~= hc@.take(7));
        return false;
    }
    assert(hc@.subrange(0, 7) =~= hc@.take(7));
    let mut at: usize = 0;
    assert(hc@.skip(0) =~= hc@);
    while hc.len() - at >= 7 && starts_with_at(&hc, at, p.as_slice())
        invariant
            at <= hc@.len(),
            p@ == bearer_prefix(),
            strip_prefixes(hc@, p@) == strip_prefixes(hc@.skip(at as int), p@),
        decreases hc@.len() - at,
    {
        assert(hc@.skip(at as int).take(7) =~= hc@.subrange(at as int, at + 7));
        assert(hc@.skip(at as int).skip(7) =~= hc@.skip(at + 7));
        at = at + 7;
    }
    if hc.len() - at >= 7 {
        assert(hc@.skip(at as int).take(7) =~= hc@.subrange(at as int, at + 7));
    }
    same_chars(&hc, at, t)
}

/// Whether the first `_token` parameter of `query` is `t`.
fn query_token_matches(query: &str, t: &Vec<char>) -> (b: bool)
    ensures
        b == (first_token(form_pairs(encode_utf8(query@))) == Some(t@)),
{
    let pairs = decode_query(query.as_bytes());
    let key = ['_', 't', 'o', 'k', 'e', 'n'];
    assert(key@ =~= token_key());
    let ghost all = form_pairs(encode_utf8(query@));
    let mut i: usize = 0;
    assert(all.skip(0) =~= all);
    while i < pairs.len()
        invariant
            i <= pairs@.len(),
            pairs@.len() == all.len(),
            all == form_pairs(encode_utf8(query@)),
            key@ == token_key(),
            forall|j: int|
                0 <= j < pairs@.len() ==> (#[trigger] pairs@[j]).0@ == all[j].0 && pairs@[j].1@
                    == all[j].1,
            first_token(all) == first_token(all.skip(i as int)),
        decreases pairs@.len() - i,
    {
        let kc = chars_of(pairs[i].0.as_str());
        assert(all.skip(i as int)[0] == all[i as int]);
        assert(pairs@[i as int].0@ == all[i as int].0);
        if kc.len() == 6 && starts_with_at(&kc, 0, key.as_slice()) {
            assert(kc@.subrange(0, 6) =~= kc@);
            let vc = chars_of(pairs[i].1.as_str());
            assert(vc@.skip(0) =~= vc@);
            assert(kc@ == key@);
            assert(all[i as int].0 == token_key());
            assert(all.skip(i as int).len() > 0);
            assert(first_token(all.skip(i as int)) == Some(all[i as int].1));
            assert(vc@ == all[i as int].1);
            return same_chars(&vc, 0, t);
        }
        assert(kc@ != token_key()) by {
            if kc@ == token_key() {
                assert(kc@.subrange(0, 6) =~= kc@);
            }
        }
        assert(all.skip(i as int).drop_first() =~= all.skip(i + 1));
        i += 1;
    }
    false
}

/// Whether a request may pass (see `authorized`): `expected` is the
/// server's token, `authorization` the `Authorization` header when it is
/// text, `query` the raw query string.
pub fn check_auth(expected: Option<&str>, authorization: Option<&str>, query: &str) -> (r: bool)
    ensures
        r == authorized(
            match expected {
                Some(t) => Some(t@),
                None => None,
            },
            match authorization {
                Some(h) => Some(h@),
                None => None,
            },
            encode_utf8(query@),
        ),
{
    let t = match expected {
        None => return true,
        Some(t) => chars_of(t),
    };
    let header_ok = match authorization {
        Some(h) => bearer_matches(h, &t),
        None => false,
    };
    header_ok || query_token_matches(query, &t)
}

} // verus!
