//! Requests, responses and captured parameters as plain values, the built-in
//! responses, and the two outside computations that dispatch relies on: the
//! decoded path of a URL and the upper-case form of a method.
use vstd::prelude::*;
use vstd::string::{StrSliceExecFns, StringSliceAdditionalSpecFns};

verus! {

/// Whether a call may persist changes.
#[derive(Clone, Copy, Debug, PartialEq, Eq, Structural)]
pub enum CallMode {
    /// A call whose effects are never persisted.
    Query,
    /// A call that may alter persisted state.
    Update,
}

/// An inbound request, as the host hands it over.
pub struct Request {
    pub method: String,
    /// Path and optional query string, possibly an absolute URL.
    pub url: String,
    pub headers: Vec<(String, String)>,
    pub body: Vec<u8>,
    /// Passed through untouched.
    pub certificate_version: Option<u16>,
}

/// A response produced by a handler or by the fallback.
pub struct Response {
    pub status_code: u16,
    pub headers: Vec<(String, String)>,
    pub body: Vec<u8>,
    /// Set by a handler answering a query call to ask the host to run the
    /// same request again as an update call.
    pub upgrade: bool,
}

/// A response over its model values.
pub struct ResponseView {
    pub status_code: u16,
    pub headers: Seq<(Seq<char>, Seq<char>)>,
    pub body: Seq<u8>,
    pub upgrade: bool,
}

impl View for Response {
    type V = ResponseView;

    open spec fn view(&self) -> ResponseView {
        ResponseView {
            status_code: self.status_code,
            headers: self.headers@.map_values(|h: (String, String)| (h.0@, h.1@)),
            body: self.body@,
            upgrade: self.upgrade,
        }
    }
}

/// The path of a URL, without scheme, authority, query or fragment, with
/// percent escapes decoded; `None` where the URL does not parse or does not
/// decode to UTF-8.
pub uninterp spec fn url_path(url: Seq<char>) -> Option<Seq<char>>;

/// Relies on `ic_http_certification::HttpRequest::get_path`, which reads the
/// request's URL alone: it parses it as a URI and percent-decodes its path.
#[verifier::external_body]
pub(crate) fn decoded_path(url: &str) -> (r: Option<String>)
    ensures
        match r {
            Some(p) => url_path(url@) == Some(p@),
            None => url_path(url@) is None,
        },
{
    ic_http_certification::HttpRequest::get(url).build().get_path().ok()
}

/// The upper-case form of a string, as `str::to_uppercase` gives it.
pub uninterp spec fn upper_of(s: Seq<char>) -> Seq<char>;

/// Relies on `str::to_uppercase`: the result depends on the characters alone.
#[verifier::external_body]
pub(crate) fn uppercase(s: &str) -> (r: String)
    ensures
        r@ == upper_of(s@),
{
    s.to_uppercase()
}

/// One of the canonical HTTP verbs, in upper case.
pub open spec fn is_canonical_method(m: Seq<char>) -> bool {
    ||| m == "GET"@
    ||| m == "POST"@
    ||| m == "PUT"@
    ||| m == "DELETE"@
    ||| m == "PATCH"@
    ||| m == "OPTIONS"@
    ||| m == "HEAD"@
    ||| m == "TRACE"@
    ||| m == "CONNECT"@
}

/// Whether `m`, already in upper case, is a canonical HTTP verb.
pub fn canonical_method(m: &str) -> (r: bool)
    ensures
        r == is_canonical_method(m@),
{
    same_text(m, "GET") || same_text(m, "POST") || same_text(m, "PUT") || same_text(m, "DELETE")
        || same_text(m, "PATCH") || same_text(m, "OPTIONS") || same_text(m, "HEAD") || same_text(
        m,
        "TRACE",
    ) || same_text(m, "CONNECT")
}

/// Parameters captured from a path, in pattern order: name and captured text.
pub struct Params {
    entries: Vec<(String, String)>,
}

impl View for Params {
    type V = Seq<(Seq<char>, Seq<char>)>;

    closed spec fn view(&self) -> Seq<(Seq<char>, Seq<char>)> {
        self.entries@.map_values(|e: (String, String)| (e.0@, e.1@))
    }
}

impl Params {
    /// No parameters.
    pub fn new() -> (r: Params)
        ensures
            r@ == Seq::<(Seq<char>, Seq<char>)>::empty(),
    {
        let r = Params { entries: Vec::new() };
        assert(r@ =~= Seq::<(Seq<char>, Seq<char>)>::empty());
        r
    }

    /// Appends one captured parameter.
    pub fn push(&mut self, name: String, value: String)
        ensures
            final(self)@ == old(self)@.push((name@, value@)),
    {
        let ghost before = self@;
        self.entries.push((name, value));
        assert(self@ =~= before.push((name@, value@)));
    }

    /// The number of captured parameters.
    pub fn len(&self) -> (r: usize)
        ensures
            r == self@.len(),
    {
        self.entries.len()
    }

    /// The value captured under `name`, the first one if several share it.
    pub fn get(&self, name: &str) -> (r: Option<&str>)
        ensures
            match r {
                Some(v) => exists|i: int|
                    0 <= i < self@.len() && self@[i].0 == name@ && v@ == self@[i].1 && (forall|
                        j: int,
                    | 0 <= j < i ==> self@[j].0 != name@),
                None => forall|i: int| 0 <= i < self@.len() ==> self@[i].0 != name@,
            },
    {
        let mut i: usize = 0;
        while i < self.entries.len()
            invariant
                i <= self.entries@.len(),
                forall|j: int| 0 <= j < i ==> self@[j].0 != name@,
            decreases self.entries@.len() - i,
        {
            if same_text(self.entries[i].0.as_str(), name) {
                let v = self.entries[i].1.as_str();
                assert(self@[i as int].0 == name@ && v@ == self@[i as int].1);
                return Some(v);
            }
            i += 1;
        }
        None
    }
}

/// Compares two strings character by character.
pub(crate) fn same_text(a: &str, b: &str) -> (r: bool)
    ensures
        r == (a@ == b@),
{
    let n = a.unicode_len();
    if n != b.unicode_len() {
        return false;
    }
    let mut i: usize = 0;
    while i < n
        invariant
            n == a@.len(),
            n == b@.len(),
            i <= n,
            forall|j: int| 0 <= j < i ==> a@[j] == b@[j],
        decreases n - i,
    {
        if a.get_char(i) != b.get_char(i) {
            return false;
        }
        i += 1;
    }
    assert(a@ =~= b@);
    true
}

/// The body of the built-in fallback response.
pub open spec fn not_found_body() -> Seq<u8> {
    "Not Found!".spec_bytes()
}

/// The response of the built-in fallback: status 404, body `Not Found!`,
/// one `Content-Type: text/plain` header.
pub open spec fn is_not_found_response(r: ResponseView) -> bool {
    &&& r.status_code == 404
    &&& r.body == not_found_body()
    &&& r.headers == seq![("Content-Type"@, "text/plain"@)]
    &&& !r.upgrade
}

/// Builds the built-in fallback response.
pub fn not_found_response() -> (r: Response)
    ensures
        is_not_found_response(r@),
{
    let mut headers: Vec<(String, String)> = Vec::new();
    headers.push((String::from_str("Content-Type"), String::from_str("text/plain")));
    let r = Response { status_code: 404, headers, body: "Not Found!".as_bytes_vec(), upgrade: false };
    assert(r@.headers =~= seq![("Content-Type"@, "text/plain"@)]);
    r
}

/// The body of the generic failure response.
pub open spec fn internal_error_body() -> Seq<u8> {
    "Internal Server Error".spec_bytes()
}

/// The generic failure response that stands for a handler fault: status
/// 500, body `Internal Server Error`, one `Content-Type: text/plain` header.
pub open spec fn is_internal_error_response(r: ResponseView) -> bool {
    &&& r.status_code == 500
    &&& r.body == internal_error_body()
    &&& r.headers == seq![("Content-Type"@, "text/plain"@)]
    &&& !r.upgrade
}

/// Builds the generic failure response.
pub fn internal_error_response() -> (r: Response)
    ensures
        is_internal_error_response(r@),
{
    let mut headers: Vec<(String, String)> = Vec::new();
    headers.push((String::from_str("Content-Type"), String::from_str("text/plain")));
    let r = Response {
        status_code: 500,
        headers,
        body: "Internal Server Error".as_bytes_vec(),
        upgrade: false,
    };
    assert(r@.headers =~= seq![("Content-Type"@, "text/plain"@)]);
    r
}

} // verus!
