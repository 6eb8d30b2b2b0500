//! HTTP/1.x messages held as plain values: building them the way
//! `http::Request::builder` and `http::Response::builder` do, parsing them
//! from bytes, and writing them out as bytes.

use vstd::prelude::*;
use vstd::string::StringSliceAdditionalSpecFns;
use crate::http_syntax::{
    HeaderField, RawRequestHead, RawResponseHead, RequestHeadOutcome, RequestHeadParse,
    RequestHeadView, ResponseHeadOutcome, ResponseHeadParse, ResponseHeadView,
    UriParts, UriView, canonical_reason, fields_view, header_line, header_lines,
    header_value_accepted, httparse_request, httparse_response, lower_name, method_accepted,
    is_tchar_char, is_value_byte, normalize_header_name, origin_form, origin_uri, parse_request_head, parse_response_head, parse_uri, readable_field, readable_fields,
    readable_target, reason_phrase, request_head_bytes, response_head_bytes, status_accepted,
    status_digits, to_lower, trimmed, uri_parse, valid_header_name, valid_header_value, valid_method, valid_status,
};
use crate::text::{copy_range, decimal_bytes, lemma_decimal_bytes_ascii, push_all, push_decimal, str_equal};

verus! {

/// HTTP version of a message.
#[derive(Debug, Clone, Copy, PartialEq, Eq, Structural)]
pub enum HttpVersion {
    Http10,
    Http11,
}

/// The version a parsed minor version number stands for; a missing one counts as 1.
pub open spec fn version_of(minor: Option<u8>) -> HttpVersion {
    match minor {
        Some(v) => if v == 0 {
            HttpVersion::Http10
        } else {
            HttpVersion::Http11
        },
        None => HttpVersion::Http11,
    }
}

fn version_from(minor: Option<u8>) -> (v: HttpVersion)
    ensures
        v == version_of(minor),
{
    match minor {
        Some(0) => HttpVersion::Http10,
        _ => HttpVersion::Http11,
    }
}

/// Why a message could not be parsed or built.
#[derive(Debug)]
pub enum HttpMessageError {
    /// `httparse` found a syntax error; its description.
    Syntax(String),
    /// The bytes end before the head of a request does.
    IncompleteRequest,
    /// The bytes end before the head of a response does.
    IncompleteResponse,
    MissingMethod,
    MissingPath,
    MissingStatus,
    InvalidMethod,
    /// `http::Uri` refused the URI; the text of its error.
    InvalidUri(String),
    InvalidStatus,
    InvalidHeaderName,
    InvalidHeaderValue,
}

pub enum MessageErrorView {
    Syntax(Seq<char>),
    IncompleteRequest,
    IncompleteResponse,
    MissingMethod,
    MissingPath,
    MissingStatus,
    InvalidMethod,
    InvalidUri(Seq<char>),
    InvalidStatus,
    InvalidHeaderName,
    InvalidHeaderValue,
}

impl View for HttpMessageError {
    type V = MessageErrorView;

    open spec fn view(&self) -> MessageErrorView {
        match self {
            HttpMessageError::Syntax(s) => MessageErrorView::Syntax(s@),
            HttpMessageError::IncompleteRequest => MessageErrorView::IncompleteRequest,
            HttpMessageError::IncompleteResponse => MessageErrorView::IncompleteResponse,
            HttpMessageError::MissingMethod => MessageErrorView::MissingMethod,
            HttpMessageError::MissingPath => MessageErrorView::MissingPath,
            HttpMessageError::MissingStatus => MessageErrorView::MissingStatus,
            HttpMessageError::InvalidMethod => MessageErrorView::InvalidMethod,
            HttpMessageError::InvalidUri(e) => MessageErrorView::InvalidUri(e@),
            HttpMessageError::InvalidStatus => MessageErrorView::InvalidStatus,
            HttpMessageError::InvalidHeaderName => MessageErrorView::InvalidHeaderName,
            HttpMessageError::InvalidHeaderValue => MessageErrorView::InvalidHeaderValue,
        }
    }
}

/// The text of an error, as its `Display` writes it: the description of
/// `httparse`'s error, the texts of `http`'s errors, and the texts the
/// parser gives for an incomplete head and for missing parts.
pub open spec fn error_text(e: MessageErrorView) -> Seq<char> {
    match e {
        MessageErrorView::Syntax(s) => s,
        MessageErrorView::IncompleteRequest => "incomplete HTTP request"@,
        MessageErrorView::IncompleteResponse => "incomplete HTTP response"@,
        MessageErrorView::MissingMethod => "missing HTTP method"@,
        MessageErrorView::MissingPath => "missing request path"@,
        MessageErrorView::MissingStatus => "missing HTTP status code"@,
        MessageErrorView::InvalidMethod => "invalid HTTP method"@,
        MessageErrorView::InvalidUri(s) => s,
        MessageErrorView::InvalidStatus => "invalid status code"@,
        MessageErrorView::InvalidHeaderName => "invalid HTTP header name"@,
        MessageErrorView::InvalidHeaderValue => "failed to parse header value"@,
    }
}

impl HttpMessageError {
    /// The error's text.
    pub fn message(&self) -> (m: String)
        ensures
            m@ == error_text(self@),
    {
        match self {
            HttpMessageError::Syntax(s) => s.clone(),
            HttpMessageError::IncompleteRequest => "incomplete HTTP request".to_owned(),
            HttpMessageError::IncompleteResponse => "incomplete HTTP response".to_owned(),
            HttpMessageError::MissingMethod => "missing HTTP method".to_owned(),
            HttpMessageError::MissingPath => "missing request path".to_owned(),
            HttpMessageError::MissingStatus => "missing HTTP status code".to_owned(),
            HttpMessageError::InvalidMethod => "invalid HTTP method".to_owned(),
            HttpMessageError::InvalidUri(s) => s.clone(),
            HttpMessageError::InvalidStatus => "invalid status code".to_owned(),
            HttpMessageError::InvalidHeaderName => "invalid HTTP header name".to_owned(),
            HttpMessageError::InvalidHeaderValue => "failed to parse header value".to_owned(),
        }
    }
}

// ---------------------------------------------------------------------------
// Headers
// ---------------------------------------------------------------------------

/// The headers of a parsed head that are passed on: those with a
/// non-empty name, in order.
pub open spec fn named_headers(hs: Seq<(Seq<char>, Seq<u8>)>) -> Seq<(Seq<char>, Seq<u8>)>
    decreases hs.len(),
{
    if hs.len() == 0 {
        Seq::empty()
    } else {
        let front = named_headers(hs.drop_last());
        if hs.last().0.len() > 0 {
            front.push(hs.last())
        } else {
            front
        }
    }
}

/// Every header value is one that `http::HeaderValue` accepts.
pub open spec fn header_values_ok(hs: Seq<(Seq<char>, Seq<u8>)>) -> bool {
    forall|i: int| 0 <= i < hs.len() ==> valid_header_value(#[trigger] hs[i].1)
}

/// The first refusal that the builder meets among headers added in order,
/// the name of each being converted before its value.
pub open spec fn first_header_error(hs: Seq<(Seq<char>, Seq<u8>)>) -> Option<MessageErrorView>
    decreases hs.len(),
{
    if hs.len() == 0 {
        None
    } else if !valid_header_name(hs[0].0) {
        Some(MessageErrorView::InvalidHeaderName)
    } else if !valid_header_value(hs[0].1) {
        Some(MessageErrorView::InvalidHeaderValue)
    } else {
        first_header_error(hs.drop_first())
    }
}

/// Index of the last header named `name`, or -1 when there is none.
pub open spec fn last_named(hs: Seq<(Seq<char>, Seq<u8>)>, name: Seq<char>) -> int
    decreases hs.len(),
{
    if hs.len() == 0 {
        -1
    } else if hs.last().0 == name {
        hs.len() - 1
    } else {
        last_named(hs.drop_last(), name)
    }
}

/// `hs` after `http::HeaderMap::append` of `h`, in the order the map yields
/// its entries: all values of one name together, names in the order they
/// first came, values in the order they came. So `h` goes right after the
/// last header of its name, or at the end when its name is new.
pub open spec fn map_append(hs: Seq<(Seq<char>, Seq<u8>)>, h: (Seq<char>, Seq<u8>)) -> Seq<
    (Seq<char>, Seq<u8>),
> {
    let j = last_named(hs, h.0);
    if j < 0 {
        hs.push(h)
    } else {
        hs.insert(j + 1, h)
    }
}

/// The headers as an `http::HeaderMap` holds them after each was appended in
/// turn, in its iteration order; names are kept in lower case.
pub open spec fn header_map(hs: Seq<(Seq<char>, Seq<u8>)>) -> Seq<(Seq<char>, Seq<u8>)>
    decreases hs.len(),
{
    if hs.len() == 0 {
        Seq::empty()
    } else {
        map_append(header_map(hs.drop_last()), (lower_name(hs.last().0), hs.last().1))
    }
}

proof fn lemma_last_named_bound(hs: Seq<(Seq<char>, Seq<u8>)>, name: Seq<char>)
    ensures
        -1 <= last_named(hs, name) < hs.len(),
    decreases hs.len(),
{
    if hs.len() > 0 {
        lemma_last_named_bound(hs.drop_last(), name);
    }
}

proof fn lemma_map_append_keeps(hs: Seq<(Seq<char>, Seq<u8>)>, h: (Seq<char>, Seq<u8>))
    ensures
        map_append(hs, h).contains(h),
        forall|i: int| 0 <= i < hs.len() ==> map_append(hs, h).contains(#[trigger] hs[i]),
{
    let j = last_named(hs, h.0);
    lemma_last_named_bound(hs, h.0);
    if j < 0 {
        assert(hs.push(h)[hs.len() as int] == h);
        assert forall|i: int| 0 <= i < hs.len() implies map_append(hs, h).contains(#[trigger] hs[i]) by {
            assert(hs.push(h)[i] == hs[i]);
        }
    } else {
        hs.insert_ensures(j + 1, h);
        assert forall|i: int| 0 <= i < hs.len() implies map_append(hs, h).contains(#[trigger] hs[i]) by {
            if i < j + 1 {
                assert(hs.insert(j + 1, h)[i] == hs[i]);
            } else {
                assert(hs.insert(j + 1, h)[i + 1] == hs[i]);
            }
        }
    }
}

/// Every header appended to an `http::HeaderMap` is found in it, under its
/// lower-case name and with its value.
pub proof fn header_map_keeps_headers(hs: Seq<(Seq<char>, Seq<u8>)>)
    ensures
        forall|i: int|
            0 <= i < hs.len() ==> header_map(hs).contains((lower_name(#[trigger] hs[i].0), hs[i].1)),
    decreases hs.len(),
{
    if hs.len() > 0 {
        let front = hs.drop_last();
        header_map_keeps_headers(front);
        let h = (lower_name(hs.last().0), hs.last().1);
        lemma_map_append_keeps(header_map(front), h);
        assert forall|i: int| 0 <= i < hs.len() implies header_map(hs).contains(
            (lower_name(#[trigger] hs[i].0), hs[i].1),
        ) by {
            if i < hs.len() - 1 {
                assert(front[i] == hs[i]);
                let x = (lower_name(front[i].0), front[i].1);
                assert(header_map(front).contains(x));
                let k = choose|k: int| 0 <= k < header_map(front).len() && header_map(front)[k] == x;
                assert(map_append(header_map(front), h).contains(header_map(front)[k]));
            }
        }
    }
}

/// Every header name is held in lower case, as `http::HeaderMap` keeps names.
pub open spec fn names_lower(hs: Seq<(Seq<char>, Seq<u8>)>) -> bool {
    forall|i: int| 0 <= i < hs.len() ==> lower_name(#[trigger] hs[i].0) == hs[i].0
}

proof fn lemma_lower_name_idempotent(n: Seq<char>)
    ensures
        lower_name(lower_name(n)) == lower_name(n),
{
    assert forall|i: int| 0 <= i < n.len() implies #[trigger] lower_name(lower_name(n))[i] == lower_name(
        n,
    )[i] by {
        let c = n[i];
        if 'A' <= c <= 'Z' {
            assert(('a' <= to_lower(c) <= 'z'));
        }
    }
    assert(lower_name(lower_name(n)) =~= lower_name(n));
}

/// The names of an `http::HeaderMap` are in lower case.
pub proof fn header_map_names_lower(hs: Seq<(Seq<char>, Seq<u8>)>)
    ensures
        names_lower(header_map(hs)),
    decreases hs.len(),
{
    if hs.len() > 0 {
        let front = hs.drop_last();
        header_map_names_lower(front);
        let s = header_map(front);
        let h = (lower_name(hs.last().0), hs.last().1);
        lemma_lower_name_idempotent(hs.last().0);
        let j = last_named(s, h.0);
        lemma_last_named_bound(s, h.0);
        if j < 0 {
            assert forall|k: int| 0 <= k < s.push(h).len() implies lower_name(#[trigger] s.push(h)[k].0)
                == s.push(h)[k].0 by {
                if k < s.len() {
                    assert(s.push(h)[k] == s[k]);
                }
            }
        } else {
            s.insert_ensures(j + 1, h);
            let t = s.insert(j + 1, h);
            assert forall|k: int| 0 <= k < t.len() implies lower_name(#[trigger] t[k].0) == t[k].0 by {
                if k < j + 1 {
                    assert(t[k] == s[k]);
                } else if k > j + 1 {
                    assert(t[(k - 1) + 1] == s[k - 1]);
                }
            }
        }
    }
}

/// Appends a header as `http::HeaderMap::append` does.
fn append_to_map(out: &mut Vec<HeaderField>, f: HeaderField)
    ensures
        fields_view(final(out)@) == map_append(fields_view(old(out)@), f@),
{
    let ghost v = fields_view(out@);
    let n = out.len();
    let mut i: usize = 0;
    let mut found = false;
    let mut j: usize = 0;
    while i < n
        invariant
            n == out@.len(),
            v == fields_view(out@),
            i <= n,
            found ==> j < i && j as int == last_named(v.take(i as int), f@.0),
            !found ==> last_named(v.take(i as int), f@.0) == -1,
        decreases n - i,
    {
        assert(v.take(i + 1).drop_last() =~= v.take(i as int));
        assert(v[i as int] == out@[i as int]@);
        if str_equal(out[i].name.as_str(), f.name.as_str()) {
            found = true;
            j = i;
        }
        i = i + 1;
    }
    assert(v.take(n as int) =~= v);
    let ghost fv = f@;
    if found {
        out.insert(j + 1, f);
    } else {
        out.push(f);
    }
    assert(fields_view(out@) =~= map_append(v, fv));
}

fn keep_named_headers(hs: &Vec<HeaderField>) -> (r: Vec<HeaderField>)
    ensures
        fields_view(r@) == named_headers(fields_view(hs@)),
{
    let mut out: Vec<HeaderField> = Vec::new();
    let mut i: usize = 0;
    while i < hs.len()
        invariant
            i <= hs@.len(),
            fields_view(out@) == named_headers(fields_view(hs@).take(i as int)),
        decreases hs@.len() - i,
    {
        let ghost all = fields_view(hs@);
        assert(all.take(i + 1).drop_last() =~= all.take(i as int));
        assert(all[i as int] == hs@[i as int]@);
        if !hs[i].name.as_str().is_empty() {
            let ghost prev = out@;
            out.push(HeaderField { name: hs[i].name.clone(), value: hs[i].value.clone() });
            assert(fields_view(out@) =~= fields_view(prev).push(all[i as int]));
        }
        i = i + 1;
    }
    assert(fields_view(hs@).take(hs@.len() as int) =~= fields_view(hs@));
    out
}

fn check_header_values(hs: &Vec<HeaderField>) -> (ok: bool)
    ensures
        ok == header_values_ok(fields_view(hs@)),
{
    let mut i: usize = 0;
    while i < hs.len()
        invariant
            i <= hs@.len(),
            forall|j: int| 0 <= j < i ==> valid_header_value(#[trigger] fields_view(hs@)[j].1),
        decreases hs@.len() - i,
    {
        assert(fields_view(hs@)[i as int] == hs@[i as int]@);
        if !header_value_accepted(hs[i].value.as_slice()) {
            assert(!valid_header_value(fields_view(hs@)[i as int].1));
            return false;
        }
        i = i + 1;
    }
    true
}

/// Adds headers in order as the builder does: each name is normalised, then
/// each value checked, then the header appended to the map; the first
/// refusal ends it.
fn add_headers(hs: &Vec<HeaderField>) -> (r: Result<Vec<HeaderField>, HttpMessageError>)
    ensures
        match first_header_error(fields_view(hs@)) {
            Some(e) => r matches Err(x) && x@ == e,
            None => r matches Ok(v) && fields_view(v@) == header_map(fields_view(hs@)),
        },
{
    let mut out: Vec<HeaderField> = Vec::new();
    let mut i: usize = 0;
    let ghost all = fields_view(hs@);
    assert(all.skip(0) =~= all);
    while i < hs.len()
        invariant
            i <= hs@.len(),
            all == fields_view(hs@),
            first_header_error(all) == first_header_error(all.skip(i as int)),
            fields_view(out@) == header_map(all.take(i as int)),
        decreases hs@.len() - i,
    {
        assert(all[i as int] == hs@[i as int]@);
        assert(all.skip(i as int)[0] == all[i as int]);
        assert(all.skip(i as int).drop_first() =~= all.skip(i + 1));
        let name = match normalize_header_name(hs[i].name.as_str()) {
            Some(n) => n,
            None => return Err(HttpMessageError::InvalidHeaderName),
        };
        if !header_value_accepted(hs[i].value.as_slice()) {
            return Err(HttpMessageError::InvalidHeaderValue);
        }
        let value = hs[i].value.clone();
        assert(value@ == hs@[i as int].value@);
        append_to_map(&mut out, HeaderField { name, value });
        assert(all.take(i + 1).drop_last() =~= all.take(i as int));
        assert(fields_view(out@) == header_map(all.take(i + 1)));
        i = i + 1;
    }
    assert(all.take(hs@.len() as int) =~= all);
    assert(all.skip(hs@.len() as int) =~= Seq::<(Seq<char>, Seq<u8>)>::empty());
    Ok(out)
}

/// Whether some header is named exactly `name` (names are held lower-case).
pub open spec fn has_header(hs: Seq<(Seq<char>, Seq<u8>)>, name: Seq<char>) -> bool {
    exists|i: int| 0 <= i < hs.len() && #[trigger] hs[i].0 == name
}

fn find_header(hs: &Vec<HeaderField>, name: &str) -> (r: bool)
    ensures
        r == has_header(fields_view(hs@), name@),
{
    let mut i: usize = 0;
    while i < hs.len()
        invariant
            i <= hs@.len(),
            forall|j: int| 0 <= j < i ==> #[trigger] fields_view(hs@)[j].0 != name@,
        decreases hs@.len() - i,
    {
        if str_equal(hs[i].name.as_str(), name) {
            assert(fields_view(hs@)[i as int].0 == name@);
            return true;
        }
        i = i + 1;
    }
    false
}

// ---------------------------------------------------------------------------
// Requests
// ---------------------------------------------------------------------------

/// A request as `http::Request<Vec<u8>>` holds it.
pub struct HttpRequestMessage {
    method: String,
    uri: UriParts,
    version: HttpVersion,
    headers: Vec<HeaderField>,
    body: Vec<u8>,
}

pub struct RequestView {
    pub method: Seq<char>,
    pub uri: UriView,
    pub version: HttpVersion,
    pub headers: Seq<(Seq<char>, Seq<u8>)>,
    pub body: Seq<u8>,
}

impl HttpRequestMessage {
    #[verifier::type_invariant]
    closed spec fn names_are_lower(self) -> bool {
        names_lower(fields_view(self.headers@))
    }
}

impl View for HttpRequestMessage {
    type V = RequestView;

    closed spec fn view(&self) -> RequestView {
        RequestView {
            method: self.method@,
            uri: self.uri@,
            version: self.version,
            headers: fields_view(self.headers@),
            body: self.body@,
        }
    }
}

/// What `http::Request::builder()` gives for a method, a URI, a version,
/// headers added in order and a body: the first refusal among method, URI
/// and headers is reported.
pub open spec fn build_request(
    method: Seq<char>,
    uri: Seq<char>,
    version: HttpVersion,
    headers: Seq<(Seq<char>, Seq<u8>)>,
    body: Seq<u8>,
) -> Result<RequestView, MessageErrorView> {
    if !valid_method(method) {
        Err(MessageErrorView::InvalidMethod)
    } else if uri_parse(uri) is Err {
        Err(MessageErrorView::InvalidUri(uri_parse(uri)->Err_0))
    } else if first_header_error(headers) is Some {
        Err(first_header_error(headers).unwrap())
    } else {
        Ok(
            RequestView {
                method,
                uri: uri_parse(uri)->Ok_0,
                version,
                headers: header_map(headers),
                body,
            },
        )
    }
}

/// The bytes after a head of `len` bytes.
pub open spec fn body_after(raw: Seq<u8>, len: nat) -> Seq<u8> {
    if raw.len() > len {
        raw.skip(len as int)
    } else {
        Seq::empty()
    }
}

/// The request that a complete head `h` of `raw` makes: a head without a
/// method or path is refused; headers with an empty name are passed over; a
/// refused header value is reported at once; then the request is built with
/// the bytes after the head as body.
pub open spec fn request_of_head(raw: Seq<u8>, h: RequestHeadView) -> Result<RequestView, MessageErrorView> {
    match h.method {
        None => Err(MessageErrorView::MissingMethod),
        Some(m) => match h.path {
            None => Err(MessageErrorView::MissingPath),
            Some(p) => if !header_values_ok(named_headers(h.headers)) {
                Err(MessageErrorView::InvalidHeaderValue)
            } else {
                build_request(
                    m,
                    p,
                    version_of(h.version),
                    named_headers(h.headers),
                    body_after(raw, h.len),
                )
            },
        },
    }
}

/// The request that `raw` holds: the head as
/// `httparse` reads it, then `request_of_head`.
pub open spec fn request_message(raw: Seq<u8>) -> Result<RequestView, MessageErrorView> {
    match httparse_request(raw) {
        RequestHeadOutcome::Invalid(e) => Err(MessageErrorView::Syntax(e)),
        RequestHeadOutcome::Partial => Err(MessageErrorView::IncompleteRequest),
        RequestHeadOutcome::Complete(h) => request_of_head(raw, h),
    }
}

pub open spec fn result_matches<T, V>(r: Result<T, HttpMessageError>, s: Result<V, MessageErrorView>, view: spec_fn(T) -> V) -> bool {
    match s {
        Ok(v) => r matches Ok(x) && view(x) == v,
        Err(e) => r matches Err(x) && x@ == e,
    }
}

impl HttpRequestMessage {
    pub fn method(&self) -> (m: &str)
        ensures
            m@ == self@.method,
    {
        self.method.as_str()
    }

    pub fn uri(&self) -> (u: &UriParts)
        ensures
            u@ == self@.uri,
    {
        &self.uri
    }

    pub fn version(&self) -> (v: HttpVersion)
        ensures
            v == self@.version,
    {
        self.version
    }

    pub fn headers(&self) -> (h: &Vec<HeaderField>)
        ensures
            fields_view(h@) == self@.headers,
            names_lower(self@.headers),
    {
        proof {
            use_type_invariant(self);
        }
        &self.headers
    }

    pub fn body(&self) -> (b: &Vec<u8>)
        ensures
            b@ == self@.body,
    {
        &self.body
    }

    /// Builds a request as `http::Request::builder()` does.
    pub fn build(
        method: &str,
        uri: &str,
        version: HttpVersion,
        headers: &Vec<HeaderField>,
        body: Vec<u8>,
    ) -> (r: Result<Self, HttpMessageError>)
        ensures
            result_matches(
                r,
                build_request(method@, uri@, version, fields_view(headers@), body@),
                |m: Self| m@,
            ),
            origin_form(uri@) ==> (r matches Ok(m) ==> m@.uri == origin_uri(uri@)),
    {
        if !method_accepted(method) {
            return Err(HttpMessageError::InvalidMethod);
        }
        let uri = match parse_uri(uri) {
            Ok(u) => u,
            Err(e) => return Err(HttpMessageError::InvalidUri(e)),
        };
        let ghost given = fields_view(headers@);
        let headers = match add_headers(headers) {
            Ok(h) => h,
            Err(e) => return Err(e),
        };
        proof {
            header_map_names_lower(given);
        }
        Ok(HttpRequestMessage { method: method.to_owned(), uri, version, headers, body })
    }
}

fn body_bytes_after(raw: &[u8], len: usize) -> (body: Vec<u8>)
    ensures
        body@ == body_after(raw@, len as nat),
{
    if raw.len() > len {
        let body = copy_range(raw, len, raw.len());
        assert(body@ =~= raw@.skip(len as int));
        body
    } else {
        Vec::new()
    }
}

/// A request whose written form is read back: a token method, a target of
/// visible characters that `http::Uri` accepts, and headers, those the
/// writer adds included, that `httparse` reads back as written (token
/// names, values without space or tab at either end, at most 64 in all).
pub open spec fn request_reads_back(m: RequestView) -> bool {
    &&& valid_method(m.method)
    &&& readable_target(request_target(m.uri))
    &&& uri_parse(request_target(m.uri)) is Ok
    &&& m.headers.len() + 3 <= 64
    &&& each_readable(m.headers)
    &&& (!has_header(m.headers, "host"@) && m.uri.authority is Some) ==> readable_host(
        m.uri.authority.unwrap(),
    )
}

/// Every header is one that `httparse` reads back as written.
pub open spec fn each_readable(hs: Seq<(Seq<char>, Seq<u8>)>) -> bool {
    forall|i: int| 0 <= i < hs.len() ==> readable_field(#[trigger] hs[i])
}

/// An authority that makes a `Host` line read back as written.
pub open spec fn readable_host(a: Seq<char>) -> bool {
    let v = vstd::utf8::encode_utf8(a);
    valid_header_value(v) && trimmed(v)
}

proof fn lemma_connection_readable()
    ensures
        readable_field(("Connection"@, "close".spec_bytes())),
{
    reveal_strlit("Connection");
    reveal_strlit("close");
    let n = "Connection"@;
    assert(n.len() == 10);
    assert forall|i: int| 0 <= i < n.len() implies #[trigger] is_tchar_char(n[i]) by {
        assert(n[i] == 'C' || n[i] == 'o' || n[i] == 'n' || n[i] == 'e' || n[i] == 'c' || n[i] == 't'
            || n[i] == 'i');
    }
    let c = "close"@;
    assert(vstd::utf8::is_ascii_chars(c));
    vstd::utf8::is_ascii_chars_encode_utf8(c);
    let v = "close".spec_bytes();
    assert(v.len() == 5);
    assert forall|i: int| 0 <= i < v.len() implies #[trigger] is_value_byte(v[i]) by {
        assert(c[i] as u8 == v[i]);
        assert(c[i] == 'c' || c[i] == 'l' || c[i] == 'o' || c[i] == 's' || c[i] == 'e');
    }
    assert(c[0] as u8 == v[0]);
    assert(c[4] as u8 == v[4]);
}

proof fn lemma_content_length_readable(n: nat)
    ensures
        readable_field(("Content-Length"@, decimal_bytes(n))),
{
    reveal_strlit("Content-Length");
    let s = "Content-Length"@;
    assert(s.len() == 14);
    assert forall|i: int| 0 <= i < s.len() implies #[trigger] is_tchar_char(s[i]) by {
        assert(s[i] == 'C' || s[i] == 'o' || s[i] == 'n' || s[i] == 't' || s[i] == 'e' || s[i] == '-'
            || s[i] == 'L' || s[i] == 'g' || s[i] == 'h');
    }
    lemma_decimal_bytes_ascii(n);
    let v = decimal_bytes(n);
    assert forall|i: int| 0 <= i < v.len() implies #[trigger] is_value_byte(v[i]) by {
        assert(48 <= v[i] <= 57);
    }
    if v.len() > 0 {
        assert(48 <= v[0] <= 57);
        assert(48 <= v[v.len() - 1] <= 57);
    }
}

proof fn lemma_host_readable(a: Seq<char>)
    requires
        readable_host(a),
    ensures
        readable_field(("Host"@, vstd::utf8::encode_utf8(a))),
{
    reveal_strlit("Host");
    let s = "Host"@;
    assert(s.len() == 4);
    assert forall|i: int| 0 <= i < s.len() implies #[trigger] is_tchar_char(s[i]) by {
        assert(s[i] == 'H' || s[i] == 'o' || s[i] == 's' || s[i] == 't');
    }
}

/// The headers a writer adds are read back as written, given a readable
/// authority where `Host` is added.
proof fn lemma_added_fields_readable(hs: Seq<(Seq<char>, Seq<u8>)>, host: Option<Seq<char>>, n: nat)
    requires
        (!has_header(hs, "host"@) && host is Some) ==> readable_host(host.unwrap()),
    ensures
        each_readable(added_fields(hs, host, n)),
        added_fields(hs, host, n).len() <= 3,
{
    lemma_connection_readable();
    lemma_content_length_readable(n);
    if !has_header(hs, "host"@) && host is Some {
        lemma_host_readable(host.unwrap());
    }
}

proof fn lemma_readable_concat(a: Seq<(Seq<char>, Seq<u8>)>, b: Seq<(Seq<char>, Seq<u8>)>)
    requires
        each_readable(a),
        each_readable(b),
        a.len() + b.len() <= 64,
    ensures
        readable_fields(a + b),
{
    assert forall|i: int| 0 <= i < (a + b).len() implies readable_field(#[trigger] (a + b)[i]) by {
        if i < a.len() {
            assert((a + b)[i] == a[i]);
        } else {
            assert((a + b)[i] == b[i - a.len()]);
        }
    }
}

/// The request parsed from the bytes written for `m`: same method and body,
/// the URI parsed from the written target, HTTP/1.1, and the written
/// headers as the builder adds them.
pub open spec fn request_read_back(m: RequestView) -> RequestView {
    RequestView {
        method: m.method,
        uri: uri_parse(request_target(m.uri))->Ok_0,
        version: HttpVersion::Http11,
        headers: header_map(written_request_fields(m)),
        body: m.body,
    }
}

proof fn lemma_named_headers_all(hs: Seq<(Seq<char>, Seq<u8>)>)
    requires
        forall|i: int| 0 <= i < hs.len() ==> (#[trigger] hs[i]).0.len() > 0,
    ensures
        named_headers(hs) == hs,
    decreases hs.len(),
{
    if hs.len() > 0 {
        lemma_named_headers_all(hs.drop_last());
        assert(hs.drop_last().push(hs.last()) =~= hs);
    }
}

proof fn lemma_no_header_error(hs: Seq<(Seq<char>, Seq<u8>)>)
    requires
        forall|i: int|
            0 <= i < hs.len() ==> valid_header_name((#[trigger] hs[i]).0) && valid_header_value(hs[i].1),
    ensures
        first_header_error(hs) is None,
    decreases hs.len(),
{
    if hs.len() > 0 {
        assert forall|i: int| 0 <= i < hs.drop_first().len() implies valid_header_name(
            (#[trigger] hs.drop_first()[i]).0,
        ) && valid_header_value(hs.drop_first()[i].1) by {
            assert(hs.drop_first()[i] == hs[i + 1]);
        }
        lemma_no_header_error(hs.drop_first());
    }
}

/// Readable headers pass the parser's checks and the builder's.
proof fn lemma_readable_fields_accepted(hs: Seq<(Seq<char>, Seq<u8>)>)
    requires
        readable_fields(hs),
    ensures
        named_headers(hs) == hs,
        header_values_ok(hs),
        first_header_error(hs) is None,
{
    assert forall|i: int| 0 <= i < hs.len() implies (#[trigger] hs[i]).0.len() > 0 by {
        assert(readable_field(hs[i]));
    }
    lemma_named_headers_all(hs);
    assert forall|i: int| 0 <= i < hs.len() implies valid_header_value(#[trigger] hs[i].1) by {
        assert(readable_field(hs[i]));
    }
    assert forall|i: int| 0 <= i < hs.len() implies valid_header_name((#[trigger] hs[i]).0)
        && valid_header_value(hs[i].1) by {
        assert(readable_field(hs[i]));
    }
    lemma_no_header_error(hs);
}

proof fn lemma_body_after_head(head: Seq<u8>, body: Seq<u8>)
    ensures
        body_after(head + body, head.len()) == body,
{
    if body.len() > 0 {
        assert((head + body).skip(head.len() as int) =~= body);
    } else {
        assert(body =~= Seq::<u8>::empty());
    }
}

/// The head that `httparse` reads from the bytes written for `m`.
pub open spec fn written_request_head(m: RequestView) -> RequestHeadView {
    RequestHeadView {
        len: request_head_bytes(m.method, request_target(m.uri), written_request_fields(m)).len(),
        method: Some(m.method),
        path: Some(request_target(m.uri)),
        version: Some(1),
        headers: written_request_fields(m),
    }
}

proof fn lemma_request_read_back(m: RequestView)
    requires
        request_reads_back(m),
    ensures
        readable_fields(written_request_fields(m)),
        request_of_head(request_bytes(m), written_request_head(m)) == Ok::<RequestView, MessageErrorView>(
            request_read_back(m),
        ),
{
    let fs = written_request_fields(m);
    lemma_added_fields_readable(m.headers, m.uri.authority, m.body.len());
    lemma_readable_concat(m.headers, added_fields(m.headers, m.uri.authority, m.body.len()));
    lemma_readable_fields_accepted(fs);
    lemma_body_after_head(request_head_bytes(m.method, request_target(m.uri), fs), m.body);
}

/// The request that a complete head of `raw` makes.
pub fn request_from_head(raw: &[u8], head: &RawRequestHead) -> (r: Result<HttpRequestMessage, HttpMessageError>)
    ensures
        result_matches(r, request_of_head(raw@, head@), |m: HttpRequestMessage| m@),
        head@.path matches Some(p) ==> (origin_form(p) ==> (r matches Ok(m) ==> m@.uri == origin_uri(p))),
{
    let method = match &head.method {
        Some(m) => m,
        None => return Err(HttpMessageError::MissingMethod),
    };
    let path = match &head.path {
        Some(p) => p,
        None => return Err(HttpMessageError::MissingPath),
    };
    let version = version_from(head.version);
    let body = body_bytes_after(raw, head.len);
    let named = keep_named_headers(&head.headers);
    if !check_header_values(&named) {
        return Err(HttpMessageError::InvalidHeaderValue);
    }
    HttpRequestMessage::build(method.as_str(), path.as_str(), version, &named, body)
}

/// Parses an HTTP request: its head with `httparse`, then a request built
/// from it as `http::Request::builder()` builds one, the bytes after the
/// head being the body.
///
/// What was written for a request is read back: on the bytes that
/// `serialize_http_request` writes for a request whose written form is
/// readable, the result is that request with the written target, HTTP/1.1
/// and the written headers.
pub fn parse_http_request_message(raw: &[u8]) -> (r: Result<HttpRequestMessage, HttpMessageError>)
    ensures
        result_matches(r, request_message(raw@), |m: HttpRequestMessage| m@),
        forall|v: RequestView|
            #[trigger] request_bytes(v) == raw@ && request_reads_back(v) ==> (r matches Ok(m) && m@
                == request_read_back(v)),
        forall|v: RequestView|
            #[trigger] request_bytes(v) == raw@ && request_reads_back(v) && origin_form(
                request_target(v.uri),
            ) ==> (r matches Ok(m) && m@.uri == origin_uri(request_target(v.uri))),
{
    let head = parse_request_head(raw);
    proof {
        assert forall|v: RequestView| #[trigger]
            request_bytes(v) == raw@ && request_reads_back(v) implies request_message(raw@) == Ok::<
            RequestView,
            MessageErrorView,
        >(request_read_back(v)) by {
            let hb = request_head_bytes(v.method, request_target(v.uri), written_request_fields(v));
            assert(raw@.subrange(0, hb.len() as int) =~= hb);
            assert(hb.is_prefix_of(raw@));
            lemma_request_read_back(v);
            assert(head@ == RequestHeadOutcome::Complete(written_request_head(v)));
        }
    }
    match head {
        RequestHeadParse::Complete(h) => {
            let res = request_from_head(raw, &h);
            proof {
                assert forall|v: RequestView| #[trigger]
                    request_bytes(v) == raw@ && request_reads_back(v) && origin_form(request_target(v.uri))
                    implies (res matches Ok(m) && m@.uri == origin_uri(request_target(v.uri))) by {
                    let hb = request_head_bytes(v.method, request_target(v.uri), written_request_fields(v));
                    assert(raw@.subrange(0, hb.len() as int) =~= hb);
                    lemma_request_read_back(v);
                    assert(h@ == written_request_head(v));
                }
            }
            res
        },
        RequestHeadParse::Partial => Err(HttpMessageError::IncompleteRequest),
        RequestHeadParse::Invalid(e) => Err(HttpMessageError::Syntax(e)),
    }
}

// ---------------------------------------------------------------------------
// Responses
// ---------------------------------------------------------------------------

/// A response as `http::Response<Vec<u8>>` holds it; its status is always valid.
pub struct HttpResponseMessage {
    status: u16,
    version: HttpVersion,
    headers: Vec<HeaderField>,
    body: Vec<u8>,
}

pub struct ResponseView {
    pub status: u16,
    pub version: HttpVersion,
    pub headers: Seq<(Seq<char>, Seq<u8>)>,
    pub body: Seq<u8>,
}

impl View for HttpResponseMessage {
    type V = ResponseView;

    closed spec fn view(&self) -> ResponseView {
        ResponseView {
            status: self.status,
            version: self.version,
            headers: fields_view(self.headers@),
            body: self.body@,
        }
    }
}

impl HttpResponseMessage {
    #[verifier::type_invariant]
    closed spec fn status_is_valid(self) -> bool {
        valid_status(self.status) && names_lower(fields_view(self.headers@))
    }
}

/// What `http::Response::builder()` gives for a status, a version, headers
/// added in order and a body: the first refusal among status and headers is
/// reported.
pub open spec fn build_response(
    status: u16,
    version: HttpVersion,
    headers: Seq<(Seq<char>, Seq<u8>)>,
    body: Seq<u8>,
) -> Result<ResponseView, MessageErrorView> {
    if !valid_status(status) {
        Err(MessageErrorView::InvalidStatus)
    } else if first_header_error(headers) is Some {
        Err(first_header_error(headers).unwrap())
    } else {
        Ok(ResponseView { status, version, headers: header_map(headers), body })
    }
}

/// The response that a complete head `h` of `raw` makes: a head without a
/// status code is refused; headers with an empty name are passed over; a
/// refused header value is reported at once; then the response is built with
/// the bytes after the head as body.
pub open spec fn response_of_head(raw: Seq<u8>, h: ResponseHeadView) -> Result<ResponseView, MessageErrorView> {
    match h.code {
        None => Err(MessageErrorView::MissingStatus),
        Some(c) => if !header_values_ok(named_headers(h.headers)) {
            Err(MessageErrorView::InvalidHeaderValue)
        } else {
            build_response(c, version_of(h.version), named_headers(h.headers), body_after(raw, h.len))
        },
    }
}

/// The response that `raw` holds: the head as
/// `httparse` reads it, then `response_of_head`.
pub open spec fn response_message(raw: Seq<u8>) -> Result<ResponseView, MessageErrorView> {
    match httparse_response(raw) {
        ResponseHeadOutcome::Invalid(e) => Err(MessageErrorView::Syntax(e)),
        ResponseHeadOutcome::Partial => Err(MessageErrorView::IncompleteResponse),
        ResponseHeadOutcome::Complete(h) => response_of_head(raw, h),
    }
}

impl HttpResponseMessage {
    pub fn status(&self) -> (s: u16)
        ensures
            s == self@.status,
            valid_status(s),
    {
        proof {
            use_type_invariant(self);
        }
        self.status
    }

    pub fn version(&self) -> (v: HttpVersion)
        ensures
            v == self@.version,
    {
        self.version
    }

    pub fn headers(&self) -> (h: &Vec<HeaderField>)
        ensures
            fields_view(h@) == self@.headers,
            names_lower(self@.headers),
    {
        proof {
            use_type_invariant(self);
        }
        &self.headers
    }

    pub fn body(&self) -> (b: &Vec<u8>)
        ensures
            b@ == self@.body,
    {
        &self.body
    }

    /// Builds a response as `http::Response::builder()` does.
    pub fn build(status: u16, version: HttpVersion, headers: &Vec<HeaderField>, body: Vec<u8>) -> (r:
        Result<Self, HttpMessageError>)
        ensures
            result_matches(
                r,
                build_response(status, version, fields_view(headers@), body@),
                |m: Self| m@,
            ),
    {
        if !status_accepted(status) {
            return Err(HttpMessageError::InvalidStatus);
        }
        let ghost given = fields_view(headers@);
        let headers = match add_headers(headers) {
            Ok(h) => h,
            Err(e) => return Err(e),
        };
        proof {
            header_map_names_lower(given);
        }
        Ok(HttpResponseMessage { status, version, headers, body })
    }

    /// Whether the status is in 200..=299, as `StatusCode::is_success` tells.
    pub fn is_success(&self) -> (r: bool)
        ensures
            r == (200 <= self@.status < 300),
    {
        200 <= self.status && self.status < 300
    }
}

/// A response whose written form is read back: a valid status whose reason
/// phrase `httparse` accepts, and headers, those the writer adds included,
/// that `httparse` reads back as written (at most 64 in all).
pub open spec fn response_reads_back(m: ResponseView) -> bool {
    &&& valid_status(m.status)
    &&& valid_header_value(vstd::utf8::encode_utf8(reason_text(m.status)))
    &&& m.headers.len() + 2 <= 64
    &&& each_readable(m.headers)
}

/// The response parsed from the bytes written for `m`: same status and
/// body, HTTP/1.1, and the written headers as the builder adds them.
pub open spec fn response_read_back(m: ResponseView) -> ResponseView {
    ResponseView {
        status: m.status,
        version: HttpVersion::Http11,
        headers: header_map(written_response_fields(m)),
        body: m.body,
    }
}

/// The head that `httparse` reads from the bytes written for `m`.
pub open spec fn written_response_head(m: ResponseView) -> ResponseHeadView {
    ResponseHeadView {
        len: response_head_bytes(
            m.status,
            vstd::utf8::encode_utf8(reason_text(m.status)),
            written_response_fields(m),
        ).len(),
        code: Some(m.status),
        version: Some(1),
        headers: written_response_fields(m),
    }
}

proof fn lemma_response_read_back(m: ResponseView)
    requires
        response_reads_back(m),
    ensures
        readable_fields(written_response_fields(m)),
        response_of_head(response_bytes(m), written_response_head(m)) == Ok::<ResponseView, MessageErrorView>(
            response_read_back(m),
        ),
{
    let fs = written_response_fields(m);
    lemma_added_fields_readable(m.headers, None, m.body.len());
    lemma_readable_concat(m.headers, added_fields(m.headers, None, m.body.len()));
    lemma_readable_fields_accepted(fs);
    lemma_body_after_head(
        response_head_bytes(m.status, vstd::utf8::encode_utf8(reason_text(m.status)), fs),
        m.body,
    );
}

/// Every header of a request is among the headers read back from what was
/// written for it, under its lower-case name and with its value.
pub proof fn request_read_back_keeps_headers(m: RequestView)
    ensures
        forall|i: int|
            0 <= i < m.headers.len() ==> request_read_back(m).headers.contains(
                (lower_name(#[trigger] m.headers[i].0), m.headers[i].1),
            ),
        names_lower(m.headers) ==> forall|i: int|
            0 <= i < m.headers.len() ==> request_read_back(m).headers.contains(#[trigger] m.headers[i]),
{
    let fs = written_request_fields(m);
    header_map_keeps_headers(fs);
    assert forall|i: int| 0 <= i < m.headers.len() implies request_read_back(m).headers.contains(
        (lower_name(#[trigger] m.headers[i].0), m.headers[i].1),
    ) by {
        assert(fs[i] == m.headers[i]);
    }
    if names_lower(m.headers) {
        assert forall|i: int| 0 <= i < m.headers.len() implies request_read_back(m).headers.contains(
            #[trigger] m.headers[i],
        ) by {
            assert(fs[i] == m.headers[i]);
            assert((lower_name(m.headers[i].0), m.headers[i].1) == m.headers[i]);
        }
    }
}

/// Every header of a response is among the headers read back from what was
/// written for it, under its lower-case name and with its value.
pub proof fn response_read_back_keeps_headers(m: ResponseView)
    ensures
        forall|i: int|
            0 <= i < m.headers.len() ==> response_read_back(m).headers.contains(
                (lower_name(#[trigger] m.headers[i].0), m.headers[i].1),
            ),
        names_lower(m.headers) ==> forall|i: int|
            0 <= i < m.headers.len() ==> response_read_back(m).headers.contains(#[trigger] m.headers[i]),
{
    let fs = written_response_fields(m);
    header_map_keeps_headers(fs);
    assert forall|i: int| 0 <= i < m.headers.len() implies response_read_back(m).headers.contains(
        (lower_name(#[trigger] m.headers[i].0), m.headers[i].1),
    ) by {
        assert(fs[i] == m.headers[i]);
    }
    if names_lower(m.headers) {
        assert forall|i: int| 0 <= i < m.headers.len() implies response_read_back(m).headers.contains(
            #[trigger] m.headers[i],
        ) by {
            assert(fs[i] == m.headers[i]);
            assert((lower_name(m.headers[i].0), m.headers[i].1) == m.headers[i]);
        }
    }
}

/// The response that a complete head of `raw` makes.
pub fn response_from_head(raw: &[u8], head: &RawResponseHead) -> (r: Result<HttpResponseMessage, HttpMessageError>)
    ensures
        result_matches(r, response_of_head(raw@, head@), |m: HttpResponseMessage| m@),
{
    let code = match head.code {
        Some(c) => c,
        None => return Err(HttpMessageError::MissingStatus),
    };
    let version = version_from(head.version);
    let body = body_bytes_after(raw, head.len);
    let named = keep_named_headers(&head.headers);
    if !check_header_values(&named) {
        return Err(HttpMessageError::InvalidHeaderValue);
    }
    HttpResponseMessage::build(code, version, &named, body)
}

/// Parses an HTTP response: its head with `httparse`, then a response built
/// from it as `http::Response::builder()` builds one.
///
/// What was written for a response is read back: on the bytes that
/// `serialize_http_response` writes for a response whose written form is
/// readable, the result is that response with HTTP/1.1 and the written
/// headers.
pub fn parse_http_response_message(raw: &[u8]) -> (r: Result<HttpResponseMessage, HttpMessageError>)
    ensures
        result_matches(r, response_message(raw@), |m: HttpResponseMessage| m@),
        forall|v: ResponseView|
            #[trigger] response_bytes(v) == raw@ && response_reads_back(v) ==> (r matches Ok(m) && m@
                == response_read_back(v)),
{
    let head = parse_response_head(raw);
    proof {
        assert forall|v: ResponseView| #[trigger]
            response_bytes(v) == raw@ && response_reads_back(v) implies response_message(raw@) == Ok::<
            ResponseView,
            MessageErrorView,
        >(response_read_back(v)) by {
            let hb = response_head_bytes(
                v.status,
                vstd::utf8::encode_utf8(reason_text(v.status)),
                written_response_fields(v),
            );
            assert(raw@.subrange(0, hb.len() as int) =~= hb);
            assert(hb.is_prefix_of(raw@));
            lemma_response_read_back(v);
            assert(head@ == ResponseHeadOutcome::Complete(written_response_head(v)));
        }
    }
    match head {
        ResponseHeadParse::Complete(h) => response_from_head(raw, &h),
        ResponseHeadParse::Partial => Err(HttpMessageError::IncompleteResponse),
        ResponseHeadParse::Invalid(e) => Err(HttpMessageError::Syntax(e)),
    }
}

// ---------------------------------------------------------------------------
// Writing messages out
// ---------------------------------------------------------------------------

/// The headers the writer adds after the message's own: `Host` with the
/// authority, for a request without a `host` header whose URI has one;
/// `Connection: close` unless a `connection` header is there; and
/// `Content-Length` unless a `content-length` header is there (`host` is
/// `None` for responses).
pub open spec fn added_fields(
    hs: Seq<(Seq<char>, Seq<u8>)>,
    host: Option<Seq<char>>,
    body_len: nat,
) -> Seq<(Seq<char>, Seq<u8>)> {
    let with_host: Seq<(Seq<char>, Seq<u8>)> = if !has_header(hs, "host"@) && host is Some {
        seq![("Host"@, vstd::utf8::encode_utf8(host.unwrap()))]
    } else {
        Seq::empty()
    };
    let with_connection = if !has_header(hs, "connection"@) {
        with_host.push(("Connection"@, "close".spec_bytes()))
    } else {
        with_host
    };
    if !has_header(hs, "content-length"@) {
        with_connection.push(("Content-Length"@, decimal_bytes(body_len)))
    } else {
        with_connection
    }
}

/// The request target written in the request line: the URI's path and
/// query, or `/` when it has none.
pub open spec fn request_target(u: UriView) -> Seq<char> {
    match u.path_and_query {
        Some(pq) => pq,
        None => "/"@,
    }
}

/// The header lines written for a request: its own, then the added ones.
pub open spec fn written_request_fields(m: RequestView) -> Seq<(Seq<char>, Seq<u8>)> {
    m.headers + added_fields(m.headers, m.uri.authority, m.body.len())
}

/// The bytes written for a request.
pub open spec fn request_bytes(m: RequestView) -> Seq<u8> {
    request_head_bytes(m.method, request_target(m.uri), written_request_fields(m)) + m.body
}

/// The reason phrase written for a status: the canonical one, or none.
pub open spec fn reason_text(code: u16) -> Seq<char> {
    match canonical_reason(code) {
        Some(r) => r,
        None => Seq::empty(),
    }
}

/// The header lines written for a response: its own, then the added ones.
pub open spec fn written_response_fields(m: ResponseView) -> Seq<(Seq<char>, Seq<u8>)> {
    m.headers + added_fields(m.headers, None, m.body.len())
}

/// The bytes written for a response.
pub open spec fn response_bytes(m: ResponseView) -> Seq<u8> {
    response_head_bytes(m.status, vstd::utf8::encode_utf8(reason_text(m.status)), written_response_fields(m))
        + m.body
}

proof fn lemma_header_lines_push(hs: Seq<(Seq<char>, Seq<u8>)>, h: (Seq<char>, Seq<u8>))
    ensures
        header_lines(hs.push(h)) == header_lines(hs) + header_line(h),
{
    assert(hs.push(h).drop_last() =~= hs);
}

proof fn lemma_header_lines_concat(a: Seq<(Seq<char>, Seq<u8>)>, b: Seq<(Seq<char>, Seq<u8>)>)
    ensures
        header_lines(a + b) == header_lines(a) + header_lines(b),
    decreases b.len(),
{
    if b.len() == 0 {
        assert(a + b =~= a);
        assert(header_lines(a) + header_lines(b) =~= header_lines(a));
    } else {
        lemma_header_lines_concat(a, b.drop_last());
        assert((a + b).drop_last() =~= a + b.drop_last());
        assert((a + b).last() == b.last());
        assert(header_lines(a + b) =~= header_lines(a) + header_lines(b));
    }
}

fn push_field_line(out: &mut Vec<u8>, name: &str, value: &[u8])
    ensures
        final(out)@ == old(out)@ + header_line((name@, value@)),
{
    push_all(out, name.as_bytes());
    push_all(out, ": ".as_bytes());
    push_all(out, value);
    push_all(out, "\r\n".as_bytes());
    assert(out@ =~= old(out)@ + header_line((name@, value@)));
}

fn push_header_lines(out: &mut Vec<u8>, hs: &Vec<HeaderField>)
    ensures
        final(out)@ == old(out)@ + header_lines(fields_view(hs@)),
{
    let mut i: usize = 0;
    while i < hs.len()
        invariant
            i <= hs@.len(),
            out@ == old(out)@ + header_lines(fields_view(hs@).take(i as int)),
        decreases hs@.len() - i,
    {
        let ghost all = fields_view(hs@);
        assert(all.take(i + 1).drop_last() =~= all.take(i as int));
        assert(all[i as int] == hs@[i as int]@);
        push_field_line(out, hs[i].name.as_str(), hs[i].value.as_slice());
        assert(out@ =~= old(out)@ + header_lines(all.take(i + 1)));
        i = i + 1;
    }
    assert(fields_view(hs@).take(hs@.len() as int) =~= fields_view(hs@));
}

pub open spec fn host_view(host: Option<&String>) -> Option<Seq<char>> {
    match host {
        Some(h) => Some(h@),
        None => None,
    }
}

fn push_added_lines(out: &mut Vec<u8>, hs: &Vec<HeaderField>, host: Option<&String>, body_len: usize)
    ensures
        final(out)@ == old(out)@ + header_lines(added_fields(fields_view(hs@), host_view(host), body_len as nat)),
{
    let ghost hv = fields_view(hs@);
    let ghost start = out@;
    let ghost mut added: Seq<(Seq<char>, Seq<u8>)> = Seq::empty();
    let has_host = find_header(hs, "host");
    if !has_host {
        if let Some(h) = host {
            push_field_line(out, "Host", h.as_str().as_bytes());
            proof {
                lemma_header_lines_push(added, ("Host"@, vstd::utf8::encode_utf8(h@)));
                added = added.push(("Host"@, vstd::utf8::encode_utf8(h@)));
            }
        }
    }
    assert(out@ =~= start + header_lines(added));
    let has_connection = find_header(hs, "connection");
    if !has_connection {
        push_field_line(out, "Connection", "close".as_bytes());
        proof {
            lemma_header_lines_push(added, ("Connection"@, "close".spec_bytes()));
            added = added.push(("Connection"@, "close".spec_bytes()));
        }
    }
    assert(out@ =~= start + header_lines(added));
    let has_content_length = find_header(hs, "content-length");
    if !has_content_length {
        let ghost before = out@;
        push_all(out, "Content-Length".as_bytes());
        push_all(out, ": ".as_bytes());
        push_decimal(out, body_len);
        push_all(out, "\r\n".as_bytes());
        proof {
            let line = ("Content-Length"@, decimal_bytes(body_len as nat));
            assert(out@ =~= before + header_line(line));
            lemma_header_lines_push(added, line);
            added = added.push(line);
        }
    }
    assert(added =~= added_fields(hv, host_view(host), body_len as nat));
    assert(out@ =~= start + header_lines(added));
}

/// Writes a request: request line with the URI's path
/// and query (`/` when it has none), the headers, `Host`, `Connection: close` and `Content-Length`
/// where missing, a blank line and the body.
pub fn serialize_http_request(request: &HttpRequestMessage) -> (out: Vec<u8>)
    ensures
        out@ == request_bytes(request@),
{
    let mut out: Vec<u8> = Vec::new();
    push_all(&mut out, request.method.as_str().as_bytes());
    push_all(&mut out, " ".as_bytes());
    let target: &str = match &request.uri.path_and_query {
        Some(pq) => pq.as_str(),
        None => "/",
    };
    push_all(&mut out, target.as_bytes());
    push_all(&mut out, " HTTP/1.1\r\n".as_bytes());
    push_header_lines(&mut out, &request.headers);
    push_added_lines(&mut out, &request.headers, request.uri.authority.as_ref(), request.body.len());
    push_all(&mut out, "\r\n".as_bytes());
    push_all(&mut out, request.body.as_slice());
    proof {
        let v = request@;
        lemma_header_lines_concat(v.headers, added_fields(v.headers, v.uri.authority, v.body.len()));
    }
    assert(out@ =~= request_bytes(request@));
    out
}

proof fn lemma_status_digits(code: u16)
    requires
        100 <= code <= 999,
    ensures
        decimal_bytes(code as nat) == status_digits(code),
{
    let n = code as nat;
    assert(n / 10 / 10 == n / 100);
    assert(n / 10 >= 10);
    assert(n / 100 < 10);
    assert(decimal_bytes(n / 100) == seq![(48 + n / 100) as u8]);
    assert(decimal_bytes(n / 10) == decimal_bytes(n / 10 / 10).push((48 + n / 10 % 10) as u8));
    assert(decimal_bytes(n) == decimal_bytes(n / 10).push((48 + n % 10) as u8));
    assert(decimal_bytes(n) =~= status_digits(code));
}

/// A phrase of printable ASCII is written as bytes that `httparse` accepts
/// in a reason phrase.
proof fn lemma_reason_bytes(s: Seq<char>)
    requires
        forall|i: int| 0 <= i < s.len() ==> ' ' <= #[trigger] s[i] <= '~',
    ensures
        valid_header_value(vstd::utf8::encode_utf8(s)),
{
    assert(vstd::utf8::is_ascii_chars(s));
    vstd::utf8::is_ascii_chars_encode_utf8(s);
    let v = vstd::utf8::encode_utf8(s);
    assert forall|i: int| 0 <= i < v.len() implies #[trigger] is_value_byte(v[i]) by {
        assert(s[i] as u8 == v[i]);
        assert(32 <= s[i] as u32 <= 126);
    }
}

/// Writes a response: status line with the canonical
/// reason phrase, the headers, `Connection: close` and `Content-Length`
/// where missing, a blank line and the body.
pub fn serialize_http_response(response: &HttpResponseMessage) -> (out: Vec<u8>)
    ensures
        out@ == response_bytes(response@),
        valid_status(response@.status),
        valid_header_value(vstd::utf8::encode_utf8(reason_text(response@.status))),
{
    proof {
        use_type_invariant(response);
    }
    let mut out: Vec<u8> = Vec::new();
    push_all(&mut out, "HTTP/1.1 ".as_bytes());
    push_decimal(&mut out, response.status as usize);
    push_all(&mut out, " ".as_bytes());
    let reason = match reason_phrase(response.status) {
        Some(r) => r,
        None => "",
    };
    proof {
        reveal_strlit("");
        if reason@.len() > 0 {
            lemma_reason_bytes(reason@);
        }
        assert(reason@ == reason_text(response.status));
    }
    push_all(&mut out, reason.as_bytes());
    push_all(&mut out, "\r\n".as_bytes());
    push_header_lines(&mut out, &response.headers);
    push_added_lines(&mut out, &response.headers, None, response.body.len());
    push_all(&mut out, "\r\n".as_bytes());
    push_all(&mut out, response.body.as_slice());
    proof {
        let v = response@;
        lemma_header_lines_concat(v.headers, added_fields(v.headers, None, v.body.len()));
        lemma_status_digits(v.status);
    }
    assert(out@ =~= response_bytes(response@));
    out
}

} // verus!
