use ehttpd::bytes::data::Data;
use ehttpd::bytes::sink::Sink;
use ehttpd::bytes::source::Source;
use ehttpd::error::ErrorKind;
use ehttpd::http::response::Response;

/// Serializes a response into a fresh vector sink.
fn serialize(response: &mut Response) -> Vec<u8> {
    let mut sink = Sink::Vector(Vec::new());
    response.to_stream(&mut sink).expect("in-memory serialization cannot fail");
    sink.into_vec().expect("the sink records")
}

/// A `200 OK` response with body bytes `hi` and no explicitly set fields
/// serializes to exactly the canonical wire form.
#[test]
fn serialize_200_ok_with_body() {
    let mut response = Response::new_200_ok();
    response.set_body_data(Data::Static(b"hi"));
    let wire = serialize(&mut response);
    assert_eq!(wire, b"HTTP/1.1 200 OK\r\nContent-Length: 2\r\n\r\nhi".to_vec());
}

/// A response with no fields and no body is just its status line and the
/// blank terminator.
#[test]
fn serialize_bare_status_lines() {
    let mut response = Response::new_404_notfound();
    assert_eq!(serialize(&mut response), b"HTTP/1.1 404 Not Found\r\n\r\n".to_vec());
    let mut response = Response::new_500_internalservererror();
    assert_eq!(
        serialize(&mut response),
        b"HTTP/1.1 500 Internal Server Error\r\n\r\n".to_vec()
    );
    let mut response = Response::new_403_forbidden();
    assert_eq!(serialize(&mut response), b"HTTP/1.1 403 Forbidden\r\n\r\n".to_vec());
    let mut response = Response::new_405_methodnotallowed();
    assert_eq!(serialize(&mut response), b"HTTP/1.1 405 Method Not Allowed\r\n\r\n".to_vec());
    let mut response = Response::new_413_payloadtoolarge();
    assert_eq!(serialize(&mut response), b"HTTP/1.1 413 Payload Too Large\r\n\r\n".to_vec());
    let mut response = Response::new_416_rangenotsatisfiable();
    assert_eq!(
        serialize(&mut response),
        b"HTTP/1.1 416 Range Not Satisfiable\r\n\r\n".to_vec()
    );
}

/// The redirect and authentication constructors set their one field.
#[test]
fn serialize_redirect_and_unauthorized() {
    let mut response = Response::new_307_temporaryredirect(Data::Static(b"/elsewhere"));
    assert_eq!(
        serialize(&mut response),
        b"HTTP/1.1 307 Temporary Redirect\r\nLocation: /elsewhere\r\n\r\n".to_vec()
    );
    let mut response = Response::new_401_unauthorized(Data::Static(b"Basic"));
    assert_eq!(
        serialize(&mut response),
        b"HTTP/1.1 401 Unauthorized\r\nWWW-Authenticate: Basic\r\n\r\n".to_vec()
    );
}

/// Setting a field removes any case-insensitive-matching prior entry and
/// appends fresh, so field order reflects last-set position.
#[test]
fn set_field_replaces_case_insensitively() {
    let mut response = Response::new_200_ok();
    response.set_field(Data::Static(b"X-One"), Data::Static(b"a"));
    response.set_field(Data::Static(b"X-Two"), Data::Static(b"b"));
    response.set_field(Data::Static(b"x-one"), Data::Static(b"c"));
    assert_eq!(response.fields.len(), 2);
    assert_eq!(response.fields[0].0.to_vec(), b"X-Two".to_vec());
    assert_eq!(response.fields[0].1.to_vec(), b"b".to_vec());
    assert_eq!(response.fields[1].0.to_vec(), b"x-one".to_vec());
    assert_eq!(response.fields[1].1.to_vec(), b"c".to_vec());
}

/// The connection-close check is ASCII-case-insensitive on both key and
/// value, and goes by the first `Connection` field.
#[test]
fn connection_close_detection() {
    let mut response = Response::new_200_ok();
    assert!(!response.has_connection_close());
    response.set_field(Data::Static(b"connection"), Data::Static(b"CLOSE"));
    assert!(response.has_connection_close());
    response.set_field(Data::Static(b"Connection"), Data::Static(b"keep-alive"));
    assert!(!response.has_connection_close());
    response.set_connection_close();
    assert!(response.has_connection_close());
}

/// The content-length round trip: what was set is what is read back.
#[test]
fn response_content_length_round_trip() {
    let mut response = Response::new_200_ok();
    assert_eq!(response.content_length().expect("a missing field is no error"), None);
    response.set_content_length(1234);
    assert_eq!(response.content_length().expect("the value is a number"), Some(1234));
    response.set_field(Data::Static(b"Content-Length"), Data::Static(b"nope"));
    let error = response.content_length().expect_err("the value is not a number");
    assert_eq!(error.kind, ErrorKind::InvalidNumber);
}

/// Turning a response into a `HEAD` response discards the body but keeps
/// the content length.
#[test]
fn make_head_discards_body() {
    let mut response = Response::new_200_ok();
    response.set_body_data(Data::Static(b"payload"));
    response.make_head();
    assert_eq!(response.content_length().unwrap(), Some(7));
    let wire = serialize(&mut response);
    assert_eq!(wire, b"HTTP/1.1 200 OK\r\nContent-Length: 7\r\n\r\n".to_vec());
}

/// Setting the body from a source leaves the content length alone.
#[test]
fn set_body_leaves_length_unset() {
    let mut response = Response::new_200_ok();
    response.set_body(Source::from(Data::Static(b"stream")));
    let wire = serialize(&mut response);
    assert_eq!(wire, b"HTTP/1.1 200 OK\r\n\r\nstream".to_vec());
}

/// Serializing consumes the body: a second pass writes an empty one.
#[test]
fn serialize_consumes_body() {
    let mut response = Response::new_200_ok();
    response.set_body_data(Data::Static(b"hi"));
    let first = serialize(&mut response);
    assert_eq!(first, b"HTTP/1.1 200 OK\r\nContent-Length: 2\r\n\r\nhi".to_vec());
    let second = serialize(&mut response);
    assert_eq!(second, b"HTTP/1.1 200 OK\r\nContent-Length: 2\r\n\r\n".to_vec());
}
