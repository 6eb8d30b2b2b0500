use sgx_qkms::http_message::{
    parse_http_request_message, parse_http_response_message, serialize_http_request,
    serialize_http_response, HttpMessageError, HttpRequestMessage, HttpResponseMessage, HttpVersion,
};
use sgx_qkms::http_protocol::{parse_http_request, BinaryHttpResponse, HttpMethod, HttpResponse};
use sgx_qkms::http_message::{request_from_head, response_from_head};
use sgx_qkms::http_syntax::{HeaderField, RawRequestHead, RawResponseHead};

fn field(name: &str, value: &[u8]) -> HeaderField {
    HeaderField { name: name.to_string(), value: value.to_vec() }
}

#[test]
fn parses_get_with_query() {
    let raw = b"GET /api/v1/keys/abc%20d/status?x=1&y=%41&&z HTTP/1.1\r\nHost: example\r\n\r\n";
    let req = parse_http_request(raw).unwrap();
    assert_eq!(req.method, HttpMethod::Get);
    assert_eq!(req.path, "/api/v1/keys/abc d/status");
    assert_eq!(req.query_params.len(), 3);
    assert_eq!(req.query_params.get("x").map(|s| s.as_str()), Some("1"));
    assert_eq!(req.query_params.get("y").map(|s| s.as_str()), Some("A"));
    assert_eq!(req.query_params.get("z").map(|s| s.as_str()), Some(""));
    assert!(req.body.is_none());
    assert!(req.raw_body.is_none());
}

#[test]
fn parses_post_with_body() {
    let raw = b"POST /enroll HTTP/1.1\r\nContent-Length: 5\r\n\r\nhello";
    let req = parse_http_request(raw).unwrap();
    assert_eq!(req.method, HttpMethod::Post);
    assert_eq!(req.path, "/enroll");
    assert_eq!(req.query_params.len(), 0);
    assert_eq!(req.body.as_deref(), Some("hello"));
    assert_eq!(req.raw_body.as_deref(), Some(&b"hello"[..]));
}

#[test]
fn parses_other_methods() {
    let req = parse_http_request(b"PUT /a HTTP/1.1\r\n\r\n").unwrap();
    assert_eq!(req.method, HttpMethod::Put);
    let req = parse_http_request(b"DELETE /a HTTP/1.1\r\n\r\n").unwrap();
    assert_eq!(req.method, HttpMethod::Delete);
    let req = parse_http_request(b"PATCH /a HTTP/1.1\r\n\r\n").unwrap();
    assert_eq!(req.method, HttpMethod::Other);
    let req = parse_http_request(b"get /a HTTP/1.1\r\n\r\n").unwrap();
    assert_eq!(req.method, HttpMethod::Other);
}

#[test]
fn invalid_body_is_read_lossily() {
    let req = parse_http_request(b"POST / HTTP/1.1\r\n\r\na\xffb").unwrap();
    assert_eq!(req.body.as_deref(), Some("a\u{fffd}b"));
    assert_eq!(req.raw_body.as_deref(), Some(&b"a\xffb"[..]));
}

#[test]
fn incomplete_request_is_refused() {
    assert!(matches!(parse_http_request(b"GET / HTTP/1.1\r\nHost"), Err(HttpMessageError::IncompleteRequest)));
    assert!(matches!(parse_http_request(b""), Err(HttpMessageError::IncompleteRequest)));
}

#[test]
fn syntax_error_is_reported() {
    match parse_http_request(b"GET / HTTP/1.1\r\nBad Header: x\r\n\r\n") {
        Err(HttpMessageError::Syntax(s)) => assert_eq!(s, "invalid header name"),
        _ => panic!("expected a syntax error"),
    }
}

#[test]
fn request_message_keeps_parts() {
    let m = parse_http_request_message(b"GET /p?q HTTP/1.0\r\nX-One: 1\r\n\r\nxyz").unwrap();
    assert_eq!(m.method(), "GET");
    assert_eq!(m.uri().text, "/p?q");
    assert_eq!(m.uri().path_and_query.as_deref(), Some("/p?q"));
    assert_eq!(m.uri().authority, None);
    assert_eq!(m.version(), HttpVersion::Http10);
    assert_eq!(m.headers().len(), 1);
    assert_eq!(m.headers()[0].name, "x-one");
    assert_eq!(m.headers()[0].value, b"1".to_vec());
    assert_eq!(m.body(), &b"xyz".to_vec());
}

#[test]
fn build_reports_first_refusal() {
    let ok = vec![field("Accept", b"*/*")];
    assert!(matches!(
        HttpRequestMessage::build("G ET", "/", HttpVersion::Http11, &vec![field("bad name", b"x")], vec![]),
        Err(HttpMessageError::InvalidMethod)
    ));
    assert!(matches!(
        HttpRequestMessage::build("GET", "http://a:b:c/", HttpVersion::Http11, &ok, vec![]),
        Err(HttpMessageError::InvalidUri(_))
    ));
    assert!(matches!(
        HttpRequestMessage::build("GET", "/", HttpVersion::Http11, &vec![field("bad name", b"x")], vec![]),
        Err(HttpMessageError::InvalidHeaderName)
    ));
    assert!(matches!(
        HttpRequestMessage::build("GET", "/", HttpVersion::Http11, &vec![field("a", b"\x01")], vec![]),
        Err(HttpMessageError::InvalidHeaderValue)
    ));
    assert!(HttpRequestMessage::build("GET", "/", HttpVersion::Http11, &ok, vec![]).is_ok());
}

#[test]
fn serializes_request_with_added_headers() {
    let m = HttpRequestMessage::build("GET", "/path?q=1", HttpVersion::Http11, &vec![field("Host", b"h")], vec![])
        .unwrap();
    assert_eq!(
        serialize_http_request(&m),
        b"GET /path?q=1 HTTP/1.1\r\nhost: h\r\nConnection: close\r\nContent-Length: 0\r\n\r\n".to_vec()
    );
}

#[test]
fn serializes_request_with_authority() {
    let m = HttpRequestMessage::build("POST", "http://example.com:8080/x", HttpVersion::Http11, &vec![], b"abc".to_vec())
        .unwrap();
    assert_eq!(
        serialize_http_request(&m),
        b"POST /x HTTP/1.1\r\nHost: example.com:8080\r\nConnection: close\r\nContent-Length: 3\r\n\r\nabc".to_vec()
    );
}

#[test]
fn serializer_keeps_given_framing_headers() {
    let hs = vec![field("Connection", b"keep-alive"), field("Content-Length", b"1")];
    let m = HttpRequestMessage::build("PUT", "/", HttpVersion::Http11, &hs, b"z".to_vec()).unwrap();
    assert_eq!(
        serialize_http_request(&m),
        b"PUT / HTTP/1.1\r\nconnection: keep-alive\r\ncontent-length: 1\r\n\r\nz".to_vec()
    );
}

#[test]
fn serializes_text_response() {
    let r = HttpResponse { status: 200, content_type: "application/json", body: "{}".to_string() };
    let m = r.to_http_response().unwrap();
    assert_eq!(m.status(), 200);
    assert_eq!(
        serialize_http_response(&m),
        b"HTTP/1.1 200 OK\r\ncontent-type: application/json\r\nConnection: close\r\nContent-Length: 2\r\n\r\n{}".to_vec()
    );
}

#[test]
fn response_without_reason_phrase() {
    let m = HttpResponseMessage::build(799, HttpVersion::Http11, &vec![], b"".to_vec()).unwrap();
    assert_eq!(
        serialize_http_response(&m),
        b"HTTP/1.1 799 \r\nConnection: close\r\nContent-Length: 0\r\n\r\n".to_vec()
    );
}

#[test]
fn invalid_status_is_refused() {
    let r = HttpResponse { status: 42, content_type: "text/plain", body: String::new() };
    assert!(matches!(r.to_http_response(), Err(HttpMessageError::InvalidStatus)));
    let r = BinaryHttpResponse { status: 1000, content_type: "text/plain", body: vec![] };
    assert!(matches!(r.to_http_response(), Err(HttpMessageError::InvalidStatus)));
}

#[test]
fn invalid_content_type_is_refused() {
    let r = HttpResponse { status: 200, content_type: "text/\nplain", body: String::new() };
    assert!(matches!(r.to_http_response(), Err(HttpMessageError::InvalidHeaderValue)));
}

#[test]
fn binary_responses() {
    let j = BinaryHttpResponse::json(201, "{\"a\":1}".to_string());
    assert_eq!(j.status, 201);
    assert_eq!(j.content_type, "application/json");
    assert_eq!(j.body, b"{\"a\":1}".to_vec());
    let o = BinaryHttpResponse::octet_stream(vec![0, 1, 2]);
    assert_eq!(o.status, 200);
    assert_eq!(o.content_type, "application/octet-stream");
    assert_eq!(o.body, vec![0, 1, 2]);
    let m = o.to_http_response().unwrap();
    assert_eq!(
        serialize_http_response(&m),
        b"HTTP/1.1 200 OK\r\ncontent-type: application/octet-stream\r\nConnection: close\r\nContent-Length: 3\r\n\r\n\x00\x01\x02".to_vec()
    );
}

#[test]
fn parses_response() {
    let m = parse_http_response_message(b"HTTP/1.1 404 Not Found\r\nContent-Length: 3\r\n\r\nabc").unwrap();
    assert_eq!(m.status(), 404);
    assert!(!m.is_success());
    assert_eq!(m.version(), HttpVersion::Http11);
    assert_eq!(m.headers()[0].name, "content-length");
    assert_eq!(m.body(), &b"abc".to_vec());
    assert!(matches!(parse_http_response_message(b"HTTP/1.1 200"), Err(HttpMessageError::IncompleteResponse)));
}

#[test]
fn request_from_hand_made_head() {
    let raw = b"HEADbody";
    let head = RawRequestHead {
        len: 4,
        method: Some("GET".to_string()),
        path: Some("/x".to_string()),
        version: None,
        headers: vec![field("", b"\x01"), field("A", b"1")],
    };
    let m = request_from_head(raw, &head).unwrap();
    assert_eq!(m.version(), HttpVersion::Http11);
    assert_eq!(m.headers().len(), 1);
    assert_eq!(m.headers()[0].name, "a");
    assert_eq!(m.body(), &b"body".to_vec());

    let no_method = RawRequestHead { len: 0, method: None, path: Some("/".to_string()), version: Some(1), headers: vec![] };
    assert!(matches!(request_from_head(raw, &no_method), Err(HttpMessageError::MissingMethod)));
    let no_path = RawRequestHead { len: 0, method: Some("GET".to_string()), path: None, version: Some(1), headers: vec![] };
    assert!(matches!(request_from_head(raw, &no_path), Err(HttpMessageError::MissingPath)));
    let bad_value = RawRequestHead {
        len: 0,
        method: Some("G ET".to_string()),
        path: Some("/".to_string()),
        version: Some(1),
        headers: vec![field("a", b"\x7f")],
    };
    assert!(matches!(request_from_head(raw, &bad_value), Err(HttpMessageError::InvalidHeaderValue)));
}

#[test]
fn response_from_hand_made_head() {
    let head = RawResponseHead { len: 2, code: Some(204), version: Some(0), headers: vec![] };
    let m = response_from_head(b"..", &head).unwrap();
    assert_eq!(m.status(), 204);
    assert_eq!(m.version(), HttpVersion::Http10);
    assert!(m.body().is_empty());
    let none = RawResponseHead { len: 0, code: None, version: None, headers: vec![] };
    assert!(matches!(response_from_head(b"", &none), Err(HttpMessageError::MissingStatus)));
    let bad = RawResponseHead { len: 0, code: Some(99), version: None, headers: vec![] };
    assert!(matches!(response_from_head(b"", &bad), Err(HttpMessageError::InvalidStatus)));
}

#[test]
fn headers_of_one_name_stay_together() {
    let hs = vec![field("A", b"1"), field("b", b"2"), field("a", b"3"), field("C", b"4"), field("B", b"5")];
    let m = HttpRequestMessage::build("GET", "/", HttpVersion::Http11, &hs, vec![]).unwrap();
    let names: Vec<(&str, &[u8])> = m.headers().iter().map(|h| (h.name.as_str(), h.value.as_slice())).collect();
    assert_eq!(
        names,
        vec![("a", &b"1"[..]), ("a", &b"3"[..]), ("b", &b"2"[..]), ("b", &b"5"[..]), ("c", &b"4"[..])]
    );
    assert_eq!(
        serialize_http_request(&m),
        b"GET / HTTP/1.1\r\na: 1\r\na: 3\r\nb: 2\r\nb: 5\r\nc: 4\r\nConnection: close\r\nContent-Length: 0\r\n\r\n".to_vec()
    );
}

#[test]
fn parsed_headers_are_grouped_by_name() {
    let m = parse_http_response_message(b"HTTP/1.1 200 OK\r\nX: 1\r\nY: 2\r\nx: 3\r\n\r\n").unwrap();
    let names: Vec<&str> = m.headers().iter().map(|h| h.name.as_str()).collect();
    assert_eq!(names, vec!["x", "x", "y"]);
    assert_eq!(m.headers()[1].value, b"3".to_vec());
}

#[test]
fn authority_form_target_is_a_slash() {
    let m = HttpRequestMessage::build("CONNECT", "example.com:443", HttpVersion::Http11, &vec![], vec![]).unwrap();
    assert_eq!(m.uri().path_and_query, None);
    assert_eq!(m.uri().authority.as_deref(), Some("example.com:443"));
    assert_eq!(
        serialize_http_request(&m),
        b"CONNECT / HTTP/1.1\r\nHost: example.com:443\r\nConnection: close\r\nContent-Length: 0\r\n\r\n".to_vec()
    );
}

#[test]
fn error_texts() {
    let e = parse_http_request_message(b"GET / HTTP/1.1\r\nHost: a\r\n").err().unwrap();
    assert_eq!(e.message(), "incomplete HTTP request");
    let e = parse_http_response_message(b"HTTP/1.1 200 OK\r\nContent-Length: 2\r\n").err().unwrap();
    assert_eq!(e.message(), "incomplete HTTP response");
    let e = parse_http_request_message(b"GET / HTTP/1.1\r\nBad Header: x\r\n\r\n").err().unwrap();
    assert_eq!(e.message(), "invalid header name");
    let e = HttpRequestMessage::build("G ET", "/", HttpVersion::Http11, &vec![], vec![]).err().unwrap();
    assert_eq!(e.message(), "invalid HTTP method");
    let e = HttpRequestMessage::build("GET", "http://a:b:c/", HttpVersion::Http11, &vec![], vec![]).err().unwrap();
    assert_eq!(e.message(), "invalid authority");
    let e = HttpRequestMessage::build("GET", "/", HttpVersion::Http11, &vec![field("bad name", b"x")], vec![]).err().unwrap();
    assert_eq!(e.message(), "invalid HTTP header name");
    let e = HttpRequestMessage::build("GET", "/", HttpVersion::Http11, &vec![field("a", b"\x01")], vec![]).err().unwrap();
    assert_eq!(e.message(), "failed to parse header value");
    let e = HttpResponseMessage::build(42, HttpVersion::Http11, &vec![], vec![]).err().unwrap();
    assert_eq!(e.message(), "invalid status code");
    let head = RawRequestHead { len: 0, method: None, path: None, version: None, headers: vec![] };
    assert_eq!(request_from_head(b"", &head).err().unwrap().message(), "missing HTTP method");
    let head = RawRequestHead { len: 0, method: Some("GET".to_string()), path: None, version: None, headers: vec![] };
    assert_eq!(request_from_head(b"", &head).err().unwrap().message(), "missing request path");
    let head = RawResponseHead { len: 0, code: None, version: None, headers: vec![] };
    assert_eq!(response_from_head(b"", &head).err().unwrap().message(), "missing HTTP status code");
}

#[test]
fn written_request_is_read_back() {
    let hs = vec![field("X-Key", b"a b"), field("Accept", b"*/*"), field("x-key", b"c")];
    let req = HttpRequestMessage::build("POST", "http://kms.example:8443/api/v1/keys?n=2", HttpVersion::Http10, &hs, b"body".to_vec())
        .unwrap();
    let bytes = serialize_http_request(&req);
    let back = parse_http_request_message(&bytes).unwrap();
    assert_eq!(back.method(), "POST");
    assert_eq!(back.uri().text, "/api/v1/keys?n=2");
    assert_eq!(back.uri().path_and_query.as_deref(), Some("/api/v1/keys?n=2"));
    assert!(back.uri().authority.is_none());
    assert_eq!(back.version(), HttpVersion::Http11);
    assert_eq!(back.body(), &b"body".to_vec());
    for h in req.headers() {
        assert!(back.headers().iter().any(|g| g.name == h.name && g.value == h.value));
    }
    let names: Vec<&str> = back.headers().iter().map(|h| h.name.as_str()).collect();
    assert_eq!(names, vec!["x-key", "x-key", "accept", "host", "connection", "content-length"]);
    assert_eq!(back.headers()[3].value, b"kms.example:8443".to_vec());
    assert_eq!(back.headers()[5].value, b"4".to_vec());
}

#[test]
fn written_response_is_read_back() {
    let hs = vec![field("Content-Type", b"application/json"), field("Retry-After", b"5")];
    let resp = HttpResponseMessage::build(503, HttpVersion::Http10, &hs, b"{}".to_vec()).unwrap();
    let bytes = serialize_http_response(&resp);
    let back = parse_http_response_message(&bytes).unwrap();
    assert_eq!(back.status(), 503);
    assert_eq!(back.version(), HttpVersion::Http11);
    assert_eq!(back.body(), &b"{}".to_vec());
    for h in resp.headers() {
        assert!(back.headers().iter().any(|g| g.name == h.name && g.value == h.value));
    }
    assert_eq!(back.headers().len(), 4);
}
