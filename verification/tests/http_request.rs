use ehttpd::bytes::data::Data;
use ehttpd::bytes::source::Source;
use ehttpd::error::ErrorKind;
use ehttpd::http::request::Request;

/// A source over the given bytes.
fn source_of(bytes: &[u8]) -> Source {
    Source::from(Data::Vec(bytes.to_vec()))
}

/// Parsing a well-formed request yields its method, target, version and
/// one field, all as views into the header.
#[test]
fn parse_well_formed_request() {
    let mut source = source_of(b"GET /x HTTP/1.1\r\nHost: a\r\n\r\n");
    let request = Request::from_stream(&mut source, 4096)
        .expect("parse succeeds")
        .expect("a request is present");
    assert_eq!(request.method.to_vec(), b"GET".to_vec());
    assert_eq!(request.target.to_vec(), b"/x".to_vec());
    assert_eq!(request.version.to_vec(), b"HTTP/1.1".to_vec());
    assert_eq!(request.fields.len(), 1);
    assert_eq!(request.fields[0].0.to_vec(), b"Host".to_vec());
    assert_eq!(request.fields[0].1.to_vec(), b"a".to_vec());
}

/// A stream that closes before any byte yields no request, not an error.
#[test]
fn parse_empty_stream_is_no_request() {
    let mut source = Source::Empty;
    let result = Request::from_stream(&mut source, 4096).expect("a clean close is not an error");
    assert!(result.is_none());
}

/// A header that exceeds the configured maximum without a terminator is a
/// "too large" error.
#[test]
fn parse_oversized_header_is_too_large() {
    let mut source = source_of(&[b'a'; 64]);
    let error = Request::from_stream(&mut source, 16).expect_err("the header is too large");
    assert_eq!(error.kind, ErrorKind::HeaderTooLarge);
}

/// A header whose terminator lands exactly at the maximum still parses.
#[test]
fn parse_terminator_at_limit() {
    let wire = b"GET /x HTTP/1.1\r\nHost: a\r\n\r\n";
    let mut source = source_of(wire);
    let request = Request::from_stream(&mut source, wire.len())
        .expect("parse succeeds")
        .expect("a request is present");
    assert_eq!(request.method.to_vec(), b"GET".to_vec());
}

/// A start line with no line terminator is a truncated start line.
#[test]
fn parse_truncated_start_line() {
    let mut source = source_of(b"GET /x HTTP/1.1");
    let error = Request::from_stream(&mut source, 4096).expect_err("the start line is truncated");
    assert_eq!(error.kind, ErrorKind::TruncatedStartLine);
}

/// A start line missing its space separators is invalid.
#[test]
fn parse_invalid_start_line() {
    let mut source = source_of(b"GETX\r\n\r\n");
    let error = Request::from_stream(&mut source, 4096).expect_err("the start line is invalid");
    assert_eq!(error.kind, ErrorKind::InvalidStartLine);
}

/// A field line with no line terminator is a truncated field.
#[test]
fn parse_truncated_field() {
    let mut source = source_of(b"GET / HTTP/1.1\r\nHost: a");
    let error = Request::from_stream(&mut source, 4096).expect_err("the field is truncated");
    assert_eq!(error.kind, ErrorKind::TruncatedField);
}

/// A field line with no colon is invalid.
#[test]
fn parse_invalid_field() {
    let mut source = source_of(b"GET / HTTP/1.1\r\nNoColon\r\n\r\n");
    let error = Request::from_stream(&mut source, 4096).expect_err("the field is invalid");
    assert_eq!(error.kind, ErrorKind::InvalidField);
}

/// Parsing stops at the header terminator and leaves the body bytes in
/// the stream.
#[test]
fn parse_leaves_body_in_stream() {
    let mut source = source_of(b"POST /u HTTP/1.1\r\nContent-Length: 4\r\n\r\nbody");
    let request = Request::from_stream(&mut source, 4096)
        .expect("parse succeeds")
        .expect("a request is present");
    assert_eq!(request.method.to_vec(), b"POST".to_vec());
    assert_eq!(source.read_to_vec(), b"body".to_vec());
}

/// Field lookup is ASCII-case-insensitive and takes the first match in
/// wire order.
#[test]
fn field_lookup_case_insensitive() {
    let mut source = source_of(b"GET / HTTP/1.1\r\nHost: a\r\nhost: b\r\nOther: c\r\n\r\n");
    let request = Request::from_stream(&mut source, 4096)
        .expect("parse succeeds")
        .expect("a request is present");
    let host = request.field(b"HOST").expect("the field exists");
    assert_eq!(host.to_vec(), b"a".to_vec());
    assert!(request.field(b"missing").is_none());
}

/// The content length is the decimal value of the field; a missing field
/// is no error, a malformed one is.
#[test]
fn request_content_length() {
    let mut source = source_of(b"GET / HTTP/1.1\r\nContent-Length: 1234\r\n\r\n");
    let request = Request::from_stream(&mut source, 4096).unwrap().unwrap();
    assert_eq!(request.content_length().expect("the value is a number"), Some(1234));

    let mut source = source_of(b"GET / HTTP/1.1\r\nHost: a\r\n\r\n");
    let request = Request::from_stream(&mut source, 4096).unwrap().unwrap();
    assert_eq!(request.content_length().expect("a missing field is no error"), None);

    let mut source = source_of(b"GET / HTTP/1.1\r\nContent-Length: 12x\r\n\r\n");
    let request = Request::from_stream(&mut source, 4096).unwrap().unwrap();
    let error = request.content_length().expect_err("the value is not a number");
    assert_eq!(error.kind, ErrorKind::InvalidNumber);

    let mut source = source_of(b"GET / HTTP/1.1\r\nContent-Length: 99999999999999999999\r\n\r\n");
    let request = Request::from_stream(&mut source, 4096).unwrap().unwrap();
    let error = request.content_length().expect_err("the value does not fit");
    assert_eq!(error.kind, ErrorKind::InvalidNumber);
}

/// Whitespace around the parsed pieces is trimmed.
#[test]
fn parse_trims_pieces() {
    let mut source = source_of(b"GET  /x  HTTP/1.1 \r\nHost:   spaced out   \r\n\r\n");
    let request = Request::from_stream(&mut source, 4096)
        .expect("parse succeeds")
        .expect("a request is present");
    assert_eq!(request.method.to_vec(), b"GET".to_vec());
    assert_eq!(request.target.to_vec(), b"".to_vec());
    assert_eq!(request.version.to_vec(), b"/x  HTTP/1.1".to_vec());
    assert_eq!(request.fields[0].1.to_vec(), b"spaced out".to_vec());
}
