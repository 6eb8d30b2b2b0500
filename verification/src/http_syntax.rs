//! What the `httparse` and `http` crates decide about HTTP syntax, behind
//! trusted items, with plain values going in and out.

use vstd::prelude::*;
use vstd::string::StringSliceAdditionalSpecFns;

verus! {

// ---------------------------------------------------------------------------
// Plain values
// ---------------------------------------------------------------------------

/// One header as it appears in a message: its name and the raw bytes of its value.
pub struct HeaderField {
    pub name: String,
    pub value: Vec<u8>,
}

impl View for HeaderField {
    type V = (Seq<char>, Seq<u8>);

    open spec fn view(&self) -> (Seq<char>, Seq<u8>) {
        (self.name@, self.value@)
    }
}

pub open spec fn fields_view(fields: Seq<HeaderField>) -> Seq<(Seq<char>, Seq<u8>)> {
    fields.map_values(|f: HeaderField| f@)
}

pub open spec fn opt_text(o: Option<String>) -> Option<Seq<char>> {
    match o {
        Some(s) => Some(s@),
        None => None,
    }
}

/// The head of a request as `httparse` leaves it after a complete parse.
pub struct RawRequestHead {
    /// Length of the head, the request line and headers with the blank line.
    pub len: usize,
    pub method: Option<String>,
    pub path: Option<String>,
    /// Minor version: `0` for HTTP/1.0, `1` for HTTP/1.1.
    pub version: Option<u8>,
    pub headers: Vec<HeaderField>,
}

pub struct RequestHeadView {
    pub len: nat,
    pub method: Option<Seq<char>>,
    pub path: Option<Seq<char>>,
    pub version: Option<u8>,
    pub headers: Seq<(Seq<char>, Seq<u8>)>,
}

impl View for RawRequestHead {
    type V = RequestHeadView;

    open spec fn view(&self) -> RequestHeadView {
        RequestHeadView {
            len: self.len as nat,
            method: opt_text(self.method),
            path: opt_text(self.path),
            version: self.version,
            headers: fields_view(self.headers@),
        }
    }
}

/// The head of a response as `httparse` leaves it after a complete parse.
pub struct RawResponseHead {
    pub len: usize,
    pub code: Option<u16>,
    pub version: Option<u8>,
    pub headers: Vec<HeaderField>,
}

pub struct ResponseHeadView {
    pub len: nat,
    pub code: Option<u16>,
    pub version: Option<u8>,
    pub headers: Seq<(Seq<char>, Seq<u8>)>,
}

impl View for RawResponseHead {
    type V = ResponseHeadView;

    open spec fn view(&self) -> ResponseHeadView {
        ResponseHeadView {
            len: self.len as nat,
            code: self.code,
            version: self.version,
            headers: fields_view(self.headers@),
        }
    }
}

/// Outcome of parsing a request head.
pub enum RequestHeadParse {
    Complete(RawRequestHead),
    Partial,
    /// The description of the syntax error that `httparse` reported.
    Invalid(String),
}

pub enum RequestHeadOutcome {
    Complete(RequestHeadView),
    Partial,
    Invalid(Seq<char>),
}

impl View for RequestHeadParse {
    type V = RequestHeadOutcome;

    open spec fn view(&self) -> RequestHeadOutcome {
        match self {
            RequestHeadParse::Complete(h) => RequestHeadOutcome::Complete(h@),
            RequestHeadParse::Partial => RequestHeadOutcome::Partial,
            RequestHeadParse::Invalid(e) => RequestHeadOutcome::Invalid(e@),
        }
    }
}

/// Outcome of parsing a response head.
pub enum ResponseHeadParse {
    Complete(RawResponseHead),
    Partial,
    Invalid(String),
}

pub enum ResponseHeadOutcome {
    Complete(ResponseHeadView),
    Partial,
    Invalid(Seq<char>),
}

impl View for ResponseHeadParse {
    type V = ResponseHeadOutcome;

    open spec fn view(&self) -> ResponseHeadOutcome {
        match self {
            ResponseHeadParse::Complete(h) => ResponseHeadOutcome::Complete(h@),
            ResponseHeadParse::Partial => ResponseHeadOutcome::Partial,
            ResponseHeadParse::Invalid(e) => ResponseHeadOutcome::Invalid(e@),
        }
    }
}

// ---------------------------------------------------------------------------
// The bytes of a message head
// ---------------------------------------------------------------------------

pub open spec fn crlf() -> Seq<u8> {
    "\r\n".spec_bytes()
}

/// `name: value\r\n`.
pub open spec fn header_line(h: (Seq<char>, Seq<u8>)) -> Seq<u8> {
    vstd::utf8::encode_utf8(h.0) + ": ".spec_bytes() + h.1 + crlf()
}

/// The header lines for `hs`, in order.
pub open spec fn header_lines(hs: Seq<(Seq<char>, Seq<u8>)>) -> Seq<u8>
    decreases hs.len(),
{
    if hs.len() == 0 {
        Seq::empty()
    } else {
        header_lines(hs.drop_last()) + header_line(hs.last())
    }
}

/// The head of an HTTP/1.1 request: request line, header lines, blank line.
pub open spec fn request_head_bytes(
    method: Seq<char>,
    target: Seq<char>,
    hs: Seq<(Seq<char>, Seq<u8>)>,
) -> Seq<u8> {
    vstd::utf8::encode_utf8(method) + " ".spec_bytes() + vstd::utf8::encode_utf8(target)
        + " HTTP/1.1\r\n".spec_bytes() + header_lines(hs) + crlf()
}

/// The three decimal digits of a status code from 100 to 999.
pub open spec fn status_digits(code: u16) -> Seq<u8> {
    seq![(48 + code / 100) as u8, (48 + code / 10 % 10) as u8, (48 + code % 10) as u8]
}

/// The head of an HTTP/1.1 response: status line with the given reason
/// phrase, header lines, blank line.
pub open spec fn response_head_bytes(code: u16, reason: Seq<u8>, hs: Seq<(Seq<char>, Seq<u8>)>) -> Seq<u8> {
    "HTTP/1.1 ".spec_bytes() + status_digits(code) + " ".spec_bytes() + reason + crlf() + header_lines(hs)
        + crlf()
}

/// A header value with no space or tab at either end.
pub open spec fn trimmed(v: Seq<u8>) -> bool {
    v.len() == 0 || (v[0] != 32 && v[0] != 9 && v.last() != 32 && v.last() != 9)
}

/// A header whose line `httparse` reads back as written: a token name and a
/// value of allowed bytes without space or tab at either end.
pub open spec fn readable_field(h: (Seq<char>, Seq<u8>)) -> bool {
    valid_header_name(h.0) && valid_header_value(h.1) && trimmed(h.1)
}

/// Headers that `httparse` reads back as written, with its 64 header slots.
pub open spec fn readable_fields(hs: Seq<(Seq<char>, Seq<u8>)>) -> bool {
    hs.len() <= 64 && forall|i: int| 0 <= i < hs.len() ==> readable_field(#[trigger] hs[i])
}

/// A request target that `httparse` reads back as written: not empty, and
/// no control character, space or DEL in it.
pub open spec fn readable_target(t: Seq<char>) -> bool {
    t.len() > 0 && forall|i: int| 0 <= i < t.len() ==> 33 <= (#[trigger] t[i] as u32) && t[i] as u32 != 127
}

// ---------------------------------------------------------------------------
// httparse
// ---------------------------------------------------------------------------

/// What `httparse::Request::parse` makes of a byte string, with room for 64 headers.
pub uninterp spec fn httparse_request(raw: Seq<u8>) -> RequestHeadOutcome;

/// What `httparse::Response::parse` makes of a byte string, with room for 64 headers.
pub uninterp spec fn httparse_response(raw: Seq<u8>) -> ResponseHeadOutcome;

/// Calls `httparse::Request::parse` with 64 header slots. Stated: the
/// outcome is `httparse_request` of the input; a complete head is no longer
/// than the input (the parser counts consumed bytes); and an input that
/// starts with a request head of a token method, a target of visible
/// characters, version HTTP/1.1 and at most 64 readable headers is read as
/// that head: `parse_method`, `parse_uri`, `parse_version` and
/// `parse_headers_iter_uninit` take exactly those bytes, keep names and
/// values as written, and count the head up to its blank line. Not stated:
/// the rest of the grammar that `httparse` applies.
#[verifier::external_body]
pub fn parse_request_head(raw: &[u8]) -> (r: RequestHeadParse)
    ensures
        r@ == httparse_request(raw@),
        r matches RequestHeadParse::Complete(h) ==> h.len <= raw@.len(),
        forall|m: Seq<char>, t: Seq<char>, hs: Seq<(Seq<char>, Seq<u8>)>|
            #![trigger request_head_bytes(m, t, hs)]
            request_head_bytes(m, t, hs).is_prefix_of(raw@) && valid_method(m) && readable_target(t)
                && readable_fields(hs) ==> r@ == RequestHeadOutcome::Complete(
                RequestHeadView {
                    len: request_head_bytes(m, t, hs).len(),
                    method: Some(m),
                    path: Some(t),
                    version: Some(1),
                    headers: hs,
                },
            ),
{
    let mut headers = [httparse::EMPTY_HEADER; 64];
    let mut req = httparse::Request::new(&mut headers);
    match req.parse(raw) {
        Ok(httparse::Status::Complete(len)) => RequestHeadParse::Complete(RawRequestHead {
            len,
            method: req.method.map(|m| m.to_string()),
            path: req.path.map(|p| p.to_string()),
            version: req.version,
            headers: req.headers.iter().map(|h| HeaderField { name: h.name.to_string(), value: h.value.to_vec() }).collect(),
        }),
        Ok(httparse::Status::Partial) => RequestHeadParse::Partial,
        Err(e) => RequestHeadParse::Invalid(e.to_string()),
    }
}

/// Calls `httparse::Response::parse` with 64 header slots. Stated: the
/// outcome is `httparse_response` of the input; a complete head is no
/// longer than the input; and an input that starts with a response head of
/// version HTTP/1.1, a three-digit code, a reason phrase of tabs, spaces,
/// visible characters and bytes from 0x80 (`parse_reason`) and at most 64
/// readable headers is read as that head. Not stated: the rest of the
/// grammar that `httparse` applies.
#[verifier::external_body]
pub fn parse_response_head(raw: &[u8]) -> (r: ResponseHeadParse)
    ensures
        r@ == httparse_response(raw@),
        r matches ResponseHeadParse::Complete(h) ==> h.len <= raw@.len(),
        forall|code: u16, reason: Seq<u8>, hs: Seq<(Seq<char>, Seq<u8>)>|
            #![trigger response_head_bytes(code, reason, hs)]
            response_head_bytes(code, reason, hs).is_prefix_of(raw@) && 100 <= code <= 999
                && valid_header_value(reason) && readable_fields(hs) ==> r@
                == ResponseHeadOutcome::Complete(
                ResponseHeadView {
                    len: response_head_bytes(code, reason, hs).len(),
                    code: Some(code),
                    version: Some(1),
                    headers: hs,
                },
            ),
{
    let mut headers = [httparse::EMPTY_HEADER; 64];
    let mut resp = httparse::Response::new(&mut headers);
    match resp.parse(raw) {
        Ok(httparse::Status::Complete(len)) => ResponseHeadParse::Complete(RawResponseHead {
            len,
            code: resp.code,
            version: resp.version,
            headers: resp.headers.iter().map(|h| HeaderField { name: h.name.to_string(), value: h.value.to_vec() }).collect(),
        }),
        Ok(httparse::Status::Partial) => ResponseHeadParse::Partial,
        Err(e) => ResponseHeadParse::Invalid(e.to_string()),
    }
}

// ---------------------------------------------------------------------------
// http: methods, header names and values, status codes
// ---------------------------------------------------------------------------

/// A token character of RFC 9110 (`tchar`), the bytes that `http` accepts
/// in methods and header names.
pub open spec fn is_tchar(b: u8) -> bool {
    ||| 48 <= b <= 57
    ||| 65 <= b <= 90
    ||| 97 <= b <= 122
    ||| b == 33 || b == 35 || b == 36 || b == 37 || b == 38 || b == 39
    ||| b == 42 || b == 43 || b == 45 || b == 46 || b == 94 || b == 95
    ||| b == 96 || b == 124 || b == 126
}

pub open spec fn is_tchar_char(c: char) -> bool {
    (c as u32) < 128 && is_tchar(c as u32 as u8)
}

/// A method that `http::Method` accepts: one or more token characters.
pub open spec fn valid_method(m: Seq<char>) -> bool {
    m.len() > 0 && forall|i: int| 0 <= i < m.len() ==> #[trigger] is_tchar_char(m[i])
}

/// Calls `http::Method::from_bytes`, which accepts a non-empty string of
/// token characters (its table `METHOD_CHARS`) and nothing else.
#[verifier::external_body]
pub fn method_accepted(m: &str) -> (r: bool)
    ensures
        r == valid_method(m@),
{
    http::Method::from_bytes(m.as_bytes()).is_ok()
}

/// ASCII lower case of one character.
pub open spec fn to_lower(c: char) -> char {
    if 'A' <= c <= 'Z' {
        ((c as u32) + 32) as char
    } else {
        c
    }
}

/// A header name that `http::HeaderName` accepts: 1 to 65535 token characters.
pub open spec fn valid_header_name(n: Seq<char>) -> bool {
    0 < n.len() <= 65535 && forall|i: int| 0 <= i < n.len() ==> #[trigger] is_tchar_char(n[i])
}

/// The normalised form that `http::HeaderName` keeps: ASCII lower case.
pub open spec fn lower_name(n: Seq<char>) -> Seq<char> {
    n.map_values(|c: char| to_lower(c))
}

/// Calls `http::HeaderName::from_bytes` and returns the name it keeps.
/// Stated, as its table `HEADER_CHARS` and length check show: it accepts
/// exactly 1 to 65535 token characters and keeps them in ASCII lower case.
#[verifier::external_body]
pub fn normalize_header_name(n: &str) -> (r: Option<String>)
    ensures
        r is Some <==> valid_header_name(n@),
        r matches Some(s) ==> s@ == lower_name(n@),
{
    http::header::HeaderName::from_bytes(n.as_bytes()).ok().map(|h| h.as_str().to_string())
}

/// A byte allowed in a header value by `http::HeaderValue`: visible ASCII,
/// space, tab or any byte from 0x80.
pub open spec fn is_value_byte(b: u8) -> bool {
    (b >= 32 && b != 127) || b == 9
}

pub open spec fn valid_header_value(v: Seq<u8>) -> bool {
    forall|i: int| 0 <= i < v.len() ==> #[trigger] is_value_byte(v[i])
}

/// Calls `http::HeaderValue::from_bytes`, which accepts exactly the byte
/// strings whose bytes all pass its `is_valid` test.
#[verifier::external_body]
pub fn header_value_accepted(v: &[u8]) -> (r: bool)
    ensures
        r == valid_header_value(v@),
{
    http::HeaderValue::from_bytes(v).is_ok()
}

/// A status code that `http::StatusCode` accepts.
pub open spec fn valid_status(code: u16) -> bool {
    100 <= code <= 999
}

/// Calls `http::StatusCode::from_u16`, which accepts exactly 100 through 999.
#[verifier::external_body]
pub fn status_accepted(code: u16) -> (r: bool)
    ensures
        r == valid_status(code),
{
    http::StatusCode::from_u16(code).is_ok()
}

/// The reason phrase that `http::StatusCode::canonical_reason` gives for a code.
pub uninterp spec fn canonical_reason(code: u16) -> Option<Seq<char>>;

/// Calls `http::StatusCode::canonical_reason` on a valid code. Stated: the
/// phrase is `canonical_reason` of the code, and every phrase of its table
/// is made of letters, digits, spaces, hyphens and apostrophes, so of
/// printable ASCII. Not stated: the table of phrases.
#[verifier::external_body]
pub fn reason_phrase(code: u16) -> (r: Option<&'static str>)
    requires
        valid_status(code),
    ensures
        match r {
            Some(s) => canonical_reason(code) == Some(s@),
            None => canonical_reason(code) is None,
        },
        r matches Some(s) ==> forall|i: int| 0 <= i < s@.len() ==> ' ' <= #[trigger] s@[i] <= '~',
{
    http::StatusCode::from_u16(code).ok().and_then(|s| s.canonical_reason())
}

// ---------------------------------------------------------------------------
// http: URIs
// ---------------------------------------------------------------------------

/// What the logic reads of a parsed `http::Uri`: its text as `Display`
/// writes it, its path and query when it has them (`Uri::path_and_query`),
/// and its authority.
pub struct UriParts {
    pub text: String,
    pub path_and_query: Option<String>,
    pub authority: Option<String>,
}

pub struct UriView {
    pub text: Seq<char>,
    pub path_and_query: Option<Seq<char>>,
    pub authority: Option<Seq<char>>,
}

impl View for UriParts {
    type V = UriView;

    open spec fn view(&self) -> UriView {
        UriView {
            text: self.text@,
            path_and_query: opt_text(self.path_and_query),
            authority: opt_text(self.authority),
        }
    }
}

/// What `http::Uri` makes of a string: its parts, or the text of the error
/// with which it refuses the string.
pub uninterp spec fn uri_parse(text: Seq<char>) -> Result<UriView, Seq<char>>;

/// A request target in origin form: a path starting with `/`, maybe with a
/// query, and without a fragment.
pub open spec fn origin_form(t: Seq<char>) -> bool {
    t.len() > 0 && t[0] == '/' && !t.contains('#')
}

/// The parts of a URI in origin form: its text is its path and query, and
/// it has no authority.
pub open spec fn origin_uri(t: Seq<char>) -> UriView {
    UriView { text: t, path_and_query: Some(t), authority: None }
}

/// Calls `http::Uri::try_from` and reads the parts that the logic uses, or
/// the error's text. Stated: the outcome is `uri_parse` of the text, and a
/// text in origin form that is accepted is kept whole as the path and
/// query (`Uri::from_shared` hands it to `PathAndQuery::from_shared`, which
/// cuts only a fragment) and written back unchanged by `Display`. Not
/// stated: the URI grammar.
#[verifier::external_body]
pub fn parse_uri(text: &str) -> (r: Result<UriParts, String>)
    ensures
        match r {
            Ok(p) => uri_parse(text@) == Ok::<UriView, Seq<char>>(p@),
            Err(e) => uri_parse(text@) == Err::<UriView, Seq<char>>(e@),
        },
        origin_form(text@) ==> (r matches Ok(p) ==> p@ == origin_uri(text@)),
{
    match http::Uri::try_from(text) {
        Ok(uri) => Ok(UriParts {
            text: uri.to_string(),
            path_and_query: uri.path_and_query().map(|pq| pq.as_str().to_string()),
            authority: uri.authority().map(|a| a.as_str().to_string()),
        }),
        Err(e) => Err(e.to_string()),
    }
}

} // verus!
