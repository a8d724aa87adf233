//! What the signer reads of a request, and where it attaches the header.

use crate::canonical::{headers_view, HeaderView};
use crate::text::{eq_ignore_ascii_case, same_name};
use vstd::prelude::*;
use vstd::string::StringExecFns;
use vstd::utf8::encode_utf8;

verus! {

/// A request as the signer sees it. The transport in use fills one in from
/// its own request, hands it to the signer, and copies the `Authorization`
/// header back.
#[derive(Debug)]
pub struct RequestDescriptor {
    /// The method, as the request line carries it.
    pub method: String,
    /// The scheme of the URL, without `://`.
    pub scheme: String,
    /// The host of the URL; empty where it has none.
    pub host: String,
    /// The path of the URL.
    pub path: String,
    /// The query of the URL, without `?`; empty where it has none.
    pub query: String,
    /// The headers, each with its name and its value.
    pub headers: Vec<(String, String)>,
    /// The names of the headers that take part in the signature.
    pub headers_to_sign: Vec<String>,
    /// The body, where it is at hand as bytes.
    pub body: Option<Vec<u8>>,
}

/// A request as contracts speak of it.
pub struct RequestView {
    pub method: Seq<char>,
    pub scheme: Seq<char>,
    pub host: Seq<char>,
    pub path: Seq<char>,
    pub query: Seq<char>,
    pub headers: Seq<HeaderView>,
    pub headers_to_sign: Seq<Seq<char>>,
    pub body: Option<Seq<u8>>,
}

impl View for RequestDescriptor {
    type V = RequestView;

    open spec fn view(&self) -> RequestView {
        RequestView {
            method: self.method@,
            scheme: self.scheme@,
            host: self.host@,
            path: self.path@,
            query: self.query@,
            headers: headers_view(self.headers@),
            headers_to_sign: self.headers_to_sign@.map_values(|n: String| n@),
            body: match self.body {
                Some(b) => Some(b@),
                None => None,
            },
        }
    }
}

/// The path with the query behind a `?`, or the path alone where the query is
/// empty.
pub open spec fn full_path(path: Seq<char>, query: Seq<char>) -> Seq<char> {
    if query.len() == 0 {
        path
    } else {
        path + "?"@ + query
    }
}

/// Whether `name` is one of `names`, up to the case of ASCII letters.
pub open spec fn is_designated(names: Seq<Seq<char>>, name: Seq<char>) -> bool {
    exists|i: int| 0 <= i < names.len() && eq_ignore_ascii_case(#[trigger] names[i], name)
}

/// The headers among `headers` whose name is one of `names`, in the order in
/// which they stand.
pub open spec fn designated_headers(headers: Seq<HeaderView>, names: Seq<Seq<char>>) -> Seq<
    HeaderView,
>
    decreases headers.len(),
{
    if headers.len() == 0 {
        Seq::<HeaderView>::empty()
    } else if is_designated(names, headers.last().0) {
        designated_headers(headers.drop_last(), names).push(headers.last())
    } else {
        designated_headers(headers.drop_last(), names)
    }
}

/// `headers` without those named `name`, up to the case of ASCII letters.
pub open spec fn without_header(headers: Seq<HeaderView>, name: Seq<char>) -> Seq<HeaderView>
    decreases headers.len(),
{
    if headers.len() == 0 {
        Seq::<HeaderView>::empty()
    } else if eq_ignore_ascii_case(headers.last().0, name) {
        without_header(headers.drop_last(), name)
    } else {
        without_header(headers.drop_last(), name).push(headers.last())
    }
}

/// `r` with `value` as its one `Authorization` header, behind the others.
pub open spec fn with_authorization(r: RequestView, value: Seq<char>) -> RequestView {
    RequestView {
        headers: without_header(r.headers, "Authorization"@).push(("Authorization"@, value)),
        ..r
    }
}

/// Whether a byte may stand in the value of a header: a visible character, a
/// space, a tab, or a byte from 128 on.
pub open spec fn is_header_byte(b: u8) -> bool {
    (b >= 32 && b != 127) || b == 9
}

/// Whether `value`, in UTF-8, holds only bytes that may stand in the value of
/// a header.
pub open spec fn is_header_value(value: Seq<char>) -> bool {
    forall|i: int|
        0 <= i < encode_utf8(value).len() ==> is_header_byte(#[trigger] encode_utf8(value)[i])
}

/// `reqwest::header::HeaderValue::from_str` accepts a text as the value of a
/// header exactly where each of its bytes is 32 or more and not 127, or is a
/// tab.
#[verifier::external_body]
pub(crate) fn header_value_accepts(value: &str) -> (r: bool)
    ensures
        r == is_header_value(value@),
{
    reqwest::header::HeaderValue::from_str(value).is_ok()
}

impl RequestDescriptor {
    /// A request without headers and without a body.
    pub fn new(method: &str, scheme: &str, host: &str, path: &str, query: &str) -> (r: Self)
        ensures
            r@ == (RequestView {
                method: method@,
                scheme: scheme@,
                host: host@,
                path: path@,
                query: query@,
                headers: Seq::<HeaderView>::empty(),
                headers_to_sign: Seq::<Seq<char>>::empty(),
                body: None,
            }),
    {
        let r = RequestDescriptor {
            method: method.to_string(),
            scheme: scheme.to_string(),
            host: host.to_string(),
            path: path.to_string(),
            query: query.to_string(),
            headers: Vec::new(),
            headers_to_sign: Vec::new(),
            body: None,
        };
        proof {
            assert(r@.headers =~= Seq::<HeaderView>::empty());
            assert(r@.headers_to_sign =~= Seq::<Seq<char>>::empty());
        }
        r
    }

    /// The path and the query as they are signed.
    pub fn full_path(&self) -> (r: String)
        ensures
            r@ == full_path(self@.path, self@.query),
    {
        if self.query.as_str().unicode_len() == 0 {
            self.path.clone()
        } else {
            self.path.clone().concat("?").concat(self.query.as_str())
        }
    }

    /// The value of the last header named `name`, up to the case of ASCII
    /// letters.
    pub fn header(&self, name: &str) -> (r: Option<&String>)
        ensures
            match r {
                Some(v) => exists|i: int|
                    0 <= i < self@.headers.len() && eq_ignore_ascii_case(
                        (#[trigger] self@.headers[i]).0,
                        name@,
                    ) && self@.headers[i].1 == v@ && forall|j: int|
                        i < j < self@.headers.len() ==> !eq_ignore_ascii_case(
                            (#[trigger] self@.headers[j]).0,
                            name@,
                        ),
                None => forall|j: int|
                    0 <= j < self@.headers.len() ==> !eq_ignore_ascii_case(
                        (#[trigger] self@.headers[j]).0,
                        name@,
                    ),
            },
    {
        let mut i: usize = self.headers.len();
        while i > 0
            invariant
                i <= self.headers.len(),
                forall|j: int|
                    i <= j < self@.headers.len() ==> !eq_ignore_ascii_case(
                        (#[trigger] self@.headers[j]).0,
                        name@,
                    ),
            decreases i,
        {
            i -= 1;
            if same_name(self.headers[i].0.as_str(), name) {
                assert(self@.headers[i as int] == (self.headers@[i as int].0@, self.headers@[i as int].1@));
                return Some(&self.headers[i].1);
            }
            assert(self@.headers[i as int].0 == self.headers@[i as int].0@);
        }
        None
    }

    /// Puts `value` in as the one `Authorization` header, behind the other
    /// headers; an `Authorization` header that was there is dropped.
    pub fn set_authorization(&mut self, value: String)
        ensures
            final(self)@ == with_authorization(old(self)@, value@),
    {
        let ghost before = self@;
        let mut kept: Vec<(String, String)> = Vec::new();
        let mut i: usize = 0;
        proof {
            assert(before.headers.take(0) =~= Seq::<HeaderView>::empty());
            assert(headers_view(kept@) =~= Seq::<HeaderView>::empty());
        }
        while i < self.headers.len()
            invariant
                i <= self.headers.len(),
                self@ == before,
                headers_view(kept@) == without_header(
                    before.headers.take(i as int),
                    "Authorization"@,
                ),
            decreases self.headers.len() - i,
        {
            proof {
                assert(before.headers.take(i + 1).drop_last() =~= before.headers.take(i as int));
                assert(before.headers.take(i + 1).last() == before.headers[i as int]);
                assert(before.headers[i as int] == (
                    self.headers@[i as int].0@,
                    self.headers@[i as int].1@,
                ));
            }
            if !same_name(self.headers[i].0.as_str(), "Authorization") {
                let ghost so_far = headers_view(kept@);
                kept.push((self.headers[i].0.clone(), self.headers[i].1.clone()));
                proof {
                    assert(headers_view(kept@) =~= so_far.push(before.headers[i as int]));
                }
            }
            i += 1;
        }
        proof {
            assert(before.headers.take(self.headers.len() as int) =~= before.headers);
        }
        let ghost rest = headers_view(kept@);
        kept.push(("Authorization".to_string(), value));
        proof {
            assert(headers_view(kept@) =~= rest.push(("Authorization"@, value@)));
        }
        self.headers = kept;
    }
}

} // verus!
