use sgx_qkms::framing::{
    extract_content_length, find_header_end, HttpMessageReader, ReadPhase, ReadStep,
};

#[test]
fn header_end_is_found() {
    assert_eq!(find_header_end(b"GET / HTTP/1.1\r\nHost: a\r\n\r\nbody"), Some(23));
    assert_eq!(find_header_end(b"\r\n\r\n"), Some(0));
    assert_eq!(find_header_end(b"GET / HTTP/1.1\r\n"), None);
    assert_eq!(find_header_end(b""), None);
    assert_eq!(find_header_end(b"a\r\n\r\n\r\n\r\n"), Some(1));
}

#[test]
fn content_length_is_read() {
    assert_eq!(extract_content_length(b"POST / HTTP/1.1\r\nContent-Length: 42"), Some(42));
    assert_eq!(extract_content_length(b"POST / HTTP/1.1\r\ncontent-length:7\r\nX: y"), Some(7));
    assert_eq!(extract_content_length(b"Content-Length:  +15  "), Some(15));
    assert_eq!(extract_content_length(b"Content-Length: 0"), Some(0));
}

#[test]
fn content_length_absent_or_invalid() {
    assert_eq!(extract_content_length(b"POST / HTTP/1.1\r\nHost: a"), None);
    assert_eq!(extract_content_length(b"CONTENT-LENGTH: 5"), None);
    assert_eq!(extract_content_length(b"Content-Length: abc"), None);
    assert_eq!(extract_content_length(b"Content-Length: -1"), None);
    assert_eq!(extract_content_length(b"Content-Length: +"), None);
    assert_eq!(extract_content_length(b"Content-Length: 99999999999999999999999"), None);
    assert_eq!(extract_content_length(b"Content-Length: 5\xff"), None);
}

#[test]
fn first_content_length_line_decides() {
    assert_eq!(extract_content_length(b"Content-Length: x\r\nContent-Length: 3"), None);
    assert_eq!(extract_content_length(b"Content-Length: 3\r\nContent-Length: 4"), Some(3));
}

#[test]
fn content_length_trims_unicode_white_space() {
    assert_eq!(extract_content_length("Content-Length:\u{a0}12\u{3000}".as_bytes()), Some(12));
}

#[test]
fn reader_with_content_length() {
    let mut r = HttpMessageReader::for_request();
    assert_eq!(r.on_chunk(b"POST / HTTP/1.1\r\nContent-Length: 5\r\n"), ReadStep::ReadChunk);
    assert_eq!(r.on_chunk(b"\r\nab"), ReadStep::ReadChunk);
    assert_eq!(r.current_phase(), ReadPhase::Body { total: 43 });
    assert_eq!(r.on_chunk(b"cde"), ReadStep::Complete);
    assert_eq!(
        r.into_message(),
        b"POST / HTTP/1.1\r\nContent-Length: 5\r\n\r\nabcde".to_vec()
    );
}

#[test]
fn reader_complete_in_one_chunk() {
    let mut r = HttpMessageReader::for_request();
    assert_eq!(r.on_chunk(b"GET / HTTP/1.1\r\nContent-Length: 0\r\n\r\n"), ReadStep::Complete);
    assert_eq!(r.current_phase(), ReadPhase::Finished);
}

#[test]
fn reader_without_content_length_reads_to_end() {
    let mut r = HttpMessageReader::for_response();
    assert_eq!(r.on_chunk(b"HTTP/1.1 200 OK\r\n\r\nhello"), ReadStep::ReadToEnd);
    assert_eq!(r.on_rest(b" world"), ReadStep::Complete);
    assert_eq!(r.into_message(), b"HTTP/1.1 200 OK\r\n\r\nhello world".to_vec());
}

#[test]
fn reader_end_of_stream_before_headers_end() {
    let mut r = HttpMessageReader::for_request();
    assert_eq!(r.on_chunk(b"GET / HTTP/1.1\r\nContent-Length: 3"), ReadStep::ReadChunk);
    // The stream ends: the whole buffer counts as the header block.
    assert_eq!(r.on_chunk(b""), ReadStep::ReadChunk);
    assert_eq!(r.on_chunk(b""), ReadStep::Complete);
}

#[test]
fn reader_body_stream_ends_early() {
    let mut r = HttpMessageReader::for_request();
    assert_eq!(r.on_chunk(b"POST / HTTP/1.1\r\nContent-Length: 10\r\n\r\nab"), ReadStep::ReadChunk);
    assert_eq!(r.on_chunk(b""), ReadStep::Complete);
    assert_eq!(r.into_message().len(), 41);
}

#[test]
fn reader_refuses_large_headers() {
    let mut r = HttpMessageReader::new(8, 100);
    assert_eq!(r.on_chunk(b"GET / HT"), ReadStep::ReadChunk);
    assert_eq!(r.on_chunk(b"T"), ReadStep::HeadersTooLarge);
}

#[test]
fn reader_refuses_large_body() {
    let mut r = HttpMessageReader::new(1000, 4);
    assert_eq!(r.on_chunk(b"POST / HTTP/1.1\r\nContent-Length: 5\r\n\r\n"), ReadStep::BodyTooLarge);
    let mut r = HttpMessageReader::new(1000, 5);
    assert_eq!(r.on_chunk(b"POST / HTTP/1.1\r\nContent-Length: 5\r\n\r\n"), ReadStep::ReadChunk);
}

#[test]
fn reader_limits() {
    let r = HttpMessageReader::for_request();
    assert!(r.has_room_for(1024));
    assert_eq!(r.current_phase(), ReadPhase::Headers);
}
