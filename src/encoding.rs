//! The reply encoding that a request asks for.
use vstd::prelude::*;
use crate::error::ApiError;
use crate::text::string_of;

verus! {

/// The encoding of one request: `base64` or `utf-8`.
#[derive(Debug, PartialEq)]
pub struct ExtractEncoding(String);

pub open spec fn base64_bytes() -> Seq<u8> {
    seq![98u8, 97u8, 115u8, 101u8, 54u8, 52u8]
}

pub open spec fn utf8_name() -> Seq<char> {
    seq!['u', 't', 'f', '-', '8']
}

pub open spec fn base64_name() -> Seq<char> {
    seq!['b', 'a', 's', 'e', '6', '4']
}

/// The encoding that the two encoding headers select, the first one present
/// winning: none means text (`utf-8`), the value `base64` means base64, and
/// any other value is refused (`None`).
pub open spec fn selected_encoding(first: Option<Seq<u8>>, second: Option<Seq<u8>>) -> Option<
    Seq<char>,
> {
    let chosen = if first is Some {
        first
    } else {
        second
    };
    match chosen {
        None => Some(utf8_name()),
        Some(v) => if v == base64_bytes() {
            Some(base64_name())
        } else {
            None
        },
    }
}

pub open spec fn bytes_view(v: Option<&[u8]>) -> Option<Seq<u8>> {
    match v {
        Some(b) => Some(b@),
        None => None,
    }
}

impl ExtractEncoding {
    pub closed spec fn view_name(&self) -> Seq<char> {
        self.0@
    }

    /// The encoding that the headers select (see `selected_encoding`), or
    /// `InvalidEncoding`. `first` and `second` are the raw values of the two
    /// encoding headers, when present.
    pub fn from_headers(first: Option<&[u8]>, second: Option<&[u8]>) -> (r: Result<
        ExtractEncoding,
        ApiError,
    >)
        ensures
            match r {
                Ok(e) => selected_encoding(bytes_view(first), bytes_view(second)) == Some(
                    e.view_name(),
                ),
                Err(err) => selected_encoding(bytes_view(first), bytes_view(second)) is None
                    && err is InvalidEncoding,
            },
    {
        let chosen = match first {
            Some(v) => Some(v),
            None => second,
        };
        match chosen {
            None => {
                let t = ['u', 't', 'f', '-', '8'];
                assert(t@ =~= utf8_name());
                Ok(ExtractEncoding(string_of(t.as_slice())))
            },
            Some(v) => {
                let ok = v.len() == 6 && v[0] == 98u8 && v[1] == 97u8 && v[2] == 115u8 && v[3]
                    == 101u8 && v[4] == 54u8 && v[5] == 52u8;
                if ok {
                    assert(v@ =~= base64_bytes());
                    let t = ['b', 'a', 's', 'e', '6', '4'];
                    assert(t@ =~= base64_name());
                    Ok(ExtractEncoding(string_of(t.as_slice())))
                } else {
                    assert(v@ != base64_bytes()) by {
                        if v@ == base64_bytes() {
                            assert(v@[0] == 98u8);
                        }
                    }
                    Err(ApiError::InvalidEncoding)
                }
            },
        }
    }

    /// The name of the encoding.
    pub fn into_inner(self) -> (r: String)
        ensures
            r@ == self.view_name(),
    {
        self.0
    }
}

} // verus!
