//! The HTTP requests the service takes and the responses it gives.

use vstd::prelude::*;
use vstd::string::StringSliceAdditionalSpecFns;
use vstd::utf8::encode_utf8;
use crate::http_message::{
    HttpMessageError, HttpRequestMessage, HttpResponseMessage, HttpVersion, MessageErrorView, RequestView,
    ResponseView, build_response, first_header_error, header_map, last_named, map_append, request_message,
    result_matches,
};
use crate::http_syntax::{
    HeaderField, fields_view, is_tchar_char, lower_name, valid_header_name, valid_header_value,
    valid_status,
};
use crate::query::{QueryParams, byte_index, decode_component, lemma_byte_index, query_params};
use crate::text::{copy_range, lossy_string, str_equal, utf8_lossy};

pub use crate::framing::{extract_content_length, find_header_end};
pub use crate::http_message::{
    parse_http_request_message, parse_http_response_message, serialize_http_request,
    serialize_http_response,
};
pub use crate::query::{decode_percent, parse_query_string};

verus! {

/// The methods the service tells apart.
#[derive(Debug, Clone, Copy, PartialEq, Eq, Structural)]
pub enum HttpMethod {
    Get,
    Post,
    Put,
    Delete,
    Other,
}

/// The kind of a method; methods are compared exactly, as `http::Method` does.
pub open spec fn method_kind(m: Seq<char>) -> HttpMethod {
    if m == "GET"@ {
        HttpMethod::Get
    } else if m == "POST"@ {
        HttpMethod::Post
    } else if m == "PUT"@ {
        HttpMethod::Put
    } else if m == "DELETE"@ {
        HttpMethod::Delete
    } else {
        HttpMethod::Other
    }
}

fn method_of(m: &str) -> (k: HttpMethod)
    ensures
        k == method_kind(m@),
{
    if str_equal(m, "GET") {
        HttpMethod::Get
    } else if str_equal(m, "POST") {
        HttpMethod::Post
    } else if str_equal(m, "PUT") {
        HttpMethod::Put
    } else if str_equal(m, "DELETE") {
        HttpMethod::Delete
    } else {
        HttpMethod::Other
    }
}

/// A request as the service's handlers see it.
pub struct ParsedRequest {
    pub method: HttpMethod,
    /// The percent-decoded path.
    pub path: String,
    pub query_params: QueryParams,
    /// The body read as UTF-8 (invalid sequences replaced), when there is one.
    pub body: Option<String>,
    /// The body as received, when there is one.
    pub raw_body: Option<Vec<u8>>,
}

pub struct ParsedRequestView {
    pub method: HttpMethod,
    pub path: Seq<char>,
    pub query_params: Map<Seq<char>, Seq<char>>,
    pub body: Option<Seq<char>>,
    pub raw_body: Option<Seq<u8>>,
}

impl View for ParsedRequest {
    type V = ParsedRequestView;

    open spec fn view(&self) -> ParsedRequestView {
        ParsedRequestView {
            method: self.method,
            path: self.path@,
            query_params: self.query_params@,
            body: match self.body {
                Some(b) => Some(b@),
                None => None,
            },
            raw_body: match self.raw_body {
                Some(b) => Some(b@),
                None => None,
            },
        }
    }
}

/// What the service makes of a request message: the URI's text is split at
/// its first `?` into a percent-decoded path and the query parameters; an
/// empty body counts as none.
pub open spec fn parsed_request_of(m: RequestView) -> ParsedRequestView {
    let u = encode_utf8(m.uri.text);
    let q = byte_index(u, 63);
    ParsedRequestView {
        method: method_kind(m.method),
        path: if q < u.len() {
            decode_component(u.take(q as int))
        } else {
            decode_component(u)
        },
        query_params: if q < u.len() {
            query_params(u.skip(q as int + 1))
        } else {
            Map::empty()
        },
        body: if m.body.len() == 0 {
            None
        } else {
            Some(utf8_lossy(m.body))
        },
        raw_body: if m.body.len() == 0 {
            None
        } else {
            Some(m.body)
        },
    }
}

/// The handlers' path is the percent-decoding of the target up to its first
/// `?`, or of the whole target when it has none; the query parameters are
/// those of the text after that `?`, and there are none without it. `k` is
/// the position of the first `?` in the target's bytes, or their number.
pub proof fn parsed_path_and_query(m: RequestView, k: int)
    requires
        0 <= k <= encode_utf8(m.uri.text).len(),
        forall|j: int| 0 <= j < k ==> encode_utf8(m.uri.text)[j] != 63,
        k == encode_utf8(m.uri.text).len() || encode_utf8(m.uri.text)[k] == 63,
    ensures
        parsed_request_of(m).path == decode_component(encode_utf8(m.uri.text).take(k)),
        parsed_request_of(m).query_params == if k < encode_utf8(m.uri.text).len() {
            query_params(encode_utf8(m.uri.text).skip(k + 1))
        } else {
            Map::empty()
        },
{
    let u = encode_utf8(m.uri.text);
    lemma_byte_index(u, 63, k);
    if k == u.len() {
        assert(u.take(k) =~= u);
    }
}

impl ParsedRequest {
    /// What the handlers see of a request message.
    pub fn from_message(request: &HttpRequestMessage) -> (p: ParsedRequest)
        ensures
            p@ == parsed_request_of(request@),
    {
        let method = method_of(request.method());
        let uri = request.uri().text.as_str().as_bytes();
        let n = uri.len();
        let mut q: usize = 0;
        while q < n && uri[q] != 63
            invariant
                q <= n,
                n == uri@.len(),
                forall|j: int| 0 <= j < q ==> uri@[j] != 63,
            decreases n - q,
        {
            q = q + 1;
        }
        proof {
            lemma_byte_index(uri@, 63, q as int);
        }
        let path;
        let query_params;
        if q < n {
            let p = copy_range(uri, 0, q);
            let qs = copy_range(uri, q + 1, n);
            assert(p@ =~= uri@.take(q as int));
            assert(qs@ =~= uri@.skip(q + 1));
            path = decode_percent(p.as_slice());
            query_params = parse_query_string(qs.as_slice());
        } else {
            path = decode_percent(uri);
            query_params = QueryParams::new();
        }
        let body_bytes = request.body();
        let body;
        let raw_body;
        if body_bytes.len() == 0 {
            body = None;
            raw_body = None;
        } else {
            body = Some(lossy_string(body_bytes.as_slice()));
            raw_body = Some(body_bytes.clone());
        }
        ParsedRequest { method, path, query_params, body, raw_body }
    }
}

/// Parses a raw HTTP request into what the handlers see.
pub fn parse_http_request(raw: &[u8]) -> (r: Result<ParsedRequest, HttpMessageError>)
    ensures
        match request_message(raw@) {
            Ok(m) => r matches Ok(p) && p@ == parsed_request_of(m),
            Err(e) => r matches Err(x) && x@ == e,
        },
{
    match parse_http_request_message(raw) {
        Ok(m) => Ok(ParsedRequest::from_message(&m)),
        Err(e) => Err(e),
    }
}

// ---------------------------------------------------------------------------
// Responses
// ---------------------------------------------------------------------------

/// A response with a text body.
pub struct HttpResponse {
    pub status: u16,
    pub content_type: &'static str,
    pub body: String,
}

/// A response with a binary body.
pub struct BinaryHttpResponse {
    pub status: u16,
    pub content_type: &'static str,
    pub body: Vec<u8>,
}

/// The response message for a status, a content type and body bytes, as
/// `http::Response::builder()` makes it with a `content-type` header.
pub open spec fn response_with_type(status: u16, content_type: Seq<char>, body: Seq<u8>) -> Result<
    ResponseView,
    MessageErrorView,
> {
    build_response(
        status,
        HttpVersion::Http11,
        seq![("content-type"@, encode_utf8(content_type))],
        body,
    )
}

/// A response with a valid status and a content type that `http` accepts
/// is built: the status, a single `content-type` header and the body.
pub proof fn lemma_response_with_type(status: u16, content_type: Seq<char>, body: Seq<u8>)
    requires
        valid_status(status),
        valid_header_value(encode_utf8(content_type)),
    ensures
        response_with_type(status, content_type, body) == Ok::<ResponseView, MessageErrorView>(
            ResponseView {
                status,
                version: HttpVersion::Http11,
                headers: seq![("content-type"@, encode_utf8(content_type))],
                body,
            },
        ),
{
    reveal_strlit("content-type");
    let hs = seq![("content-type"@, encode_utf8(content_type))];
    let name = "content-type"@;
    assert forall|i: int| 0 <= i < name.len() implies #[trigger] is_tchar_char(name[i]) by {}
    assert(valid_header_name(name));
    assert(hs.drop_first() =~= Seq::<(Seq<char>, Seq<u8>)>::empty());
    assert(hs[0].0 == name && hs[0].1 == encode_utf8(content_type));
    assert(first_header_error(hs.drop_first()) is None);
    assert(first_header_error(hs) is None);
    assert(lower_name(name) =~= name);
    assert(hs.drop_last() =~= Seq::<(Seq<char>, Seq<u8>)>::empty());
    let e = Seq::<(Seq<char>, Seq<u8>)>::empty();
    assert(header_map(hs.drop_last()) == e);
    assert(last_named(e, name) == -1);
    assert(header_map(hs) == map_append(e, (lower_name(name), hs[0].1)));
    assert(header_map(hs) =~= hs);
}

fn build_with_type(status: u16, content_type: &str, body: Vec<u8>) -> (r: Result<
    HttpResponseMessage,
    HttpMessageError,
>)
    ensures
        result_matches(r, response_with_type(status, content_type@, body@), |m: HttpResponseMessage| m@),
{
    let ct = content_type.as_bytes();
    let value = copy_range(ct, 0, ct.len());
    assert(value@ =~= content_type.spec_bytes());
    let mut headers: Vec<HeaderField> = Vec::new();
    headers.push(HeaderField { name: "content-type".to_owned(), value });
    assert(fields_view(headers@) =~= seq![("content-type"@, encode_utf8(content_type@))]);
    HttpResponseMessage::build(status, HttpVersion::Http11, &headers, body)
}

impl HttpResponse {
    /// The response message: the status, a `content-type` header and the
    /// body's UTF-8 bytes.
    pub fn to_http_response(&self) -> (r: Result<HttpResponseMessage, HttpMessageError>)
        ensures
            result_matches(
                r,
                response_with_type(self.status, self.content_type@, encode_utf8(self.body@)),
                |m: HttpResponseMessage| m@,
            ),
    {
        let b = self.body.as_str().as_bytes();
        let body = copy_range(b, 0, b.len());
        assert(body@ =~= encode_utf8(self.body@));
        build_with_type(self.status, self.content_type, body)
    }
}

impl BinaryHttpResponse {
    /// The response message: the status, a `content-type` header and the body.
    pub fn to_http_response(&self) -> (r: Result<HttpResponseMessage, HttpMessageError>)
        ensures
            result_matches(
                r,
                response_with_type(self.status, self.content_type@, self.body@),
                |m: HttpResponseMessage| m@,
            ),
    {
        build_with_type(self.status, self.content_type, self.body.clone())
    }

    /// A JSON response with the given status.
    pub fn json(status: u16, body: String) -> (r: Self)
        ensures
            r.status == status,
            r.content_type@ == "application/json"@,
            r.body@ == encode_utf8(body@),
    {
        let b = body.as_str().as_bytes();
        let bytes = copy_range(b, 0, b.len());
        assert(bytes@ =~= encode_utf8(body@));
        BinaryHttpResponse { status, content_type: "application/json", body: bytes }
    }

    /// A successful response carrying raw bytes.
    pub fn octet_stream(body: Vec<u8>) -> (r: Self)
        ensures
            r.status == 200,
            r.content_type@ == "application/octet-stream"@,
            r.body@ == body@,
    {
        BinaryHttpResponse { status: 200, content_type: "application/octet-stream", body }
    }
}

} // verus!
