use ehttpd::bytes::data::Data;
use ehttpd::bytes::sink::Sink;
use ehttpd::bytes::source::Source;
use ehttpd::error::ErrorKind;
use ehttpd::http::response::Response;
use ehttpd::reqresp;
use ehttpd::threadpool::state::PoolState;
use ehttpd::Connection;

/// A source over the given bytes.
fn source_of(bytes: &[u8]) -> Source {
    Source::from(Data::Vec(bytes.to_vec()))
}

/// One full cycle: the request is parsed, the handler's response is
/// written, and a response without `Connection: Close` keeps the
/// connection open.
#[test]
fn reqresp_keeps_connection_open() {
    let mut source = source_of(b"GET /x HTTP/1.1\r\nHost: a\r\n\r\n");
    let mut sink = Sink::Vector(Vec::new());
    let keep = reqresp(
        &mut source,
        &mut sink,
        |_req| {
            let mut response = Response::new_200_ok();
            response.set_body_data(Data::Static(b"hi"));
            response
        },
        4096,
    );
    assert!(keep);
    assert_eq!(
        sink.into_vec().unwrap(),
        b"HTTP/1.1 200 OK\r\nContent-Length: 2\r\n\r\nhi".to_vec()
    );
}

/// A response that asks for closure ends the connection.
#[test]
fn reqresp_honours_connection_close() {
    let mut source = source_of(b"GET /x HTTP/1.1\r\n\r\n");
    let mut sink = Sink::Vector(Vec::new());
    let keep = reqresp(
        &mut source,
        &mut sink,
        |_req| {
            let mut response = Response::new_200_ok();
            response.set_connection_close();
            response
        },
        4096,
    );
    assert!(!keep);
}

/// A stream that closes before any byte ends the cycle silently: nothing
/// is written and the connection is not kept.
#[test]
fn reqresp_idle_close_writes_nothing() {
    let mut source = Source::Empty;
    let mut sink = Sink::Vector(Vec::new());
    let keep = reqresp(&mut source, &mut sink, |_req| Response::new_200_ok(), 4096);
    assert!(!keep);
    assert_eq!(sink.into_vec().unwrap(), Vec::<u8>::new());
}

/// A malformed request aborts the cycle without a response.
#[test]
fn reqresp_aborts_on_parse_error() {
    let mut source = source_of(b"garbage");
    let mut sink = Sink::Vector(Vec::new());
    let keep = reqresp(&mut source, &mut sink, |_req| Response::new_200_ok(), 4096);
    assert!(!keep);
    assert_eq!(sink.into_vec().unwrap(), Vec::<u8>::new());
}

/// A kept-alive connection re-enters the pool bookkeeping through exactly
/// one dispatch per completed cycle, with the same halves carried
/// forward; a closed one leaves the bookkeeping untouched.
#[test]
fn keep_alive_redispatches_exactly_once() {
    let mut pool = PoolState::new(4).expect("a positive maximum is valid");
    let connection = Connection {
        rx: source_of(b"GET /a HTTP/1.1\r\n\r\nGET /b HTTP/1.1\r\n\r\n"),
        tx: Sink::Vector(Vec::new()),
    };
    let connection = connection
        .handle(|_req| Response::new_200_ok(), 4096, &mut pool)
        .expect("the pool has room")
        .expect("the connection is kept open");
    assert_eq!(pool.queued, 1);
    assert_eq!(pool.total, 1);

    // The same halves come back: the next request is already in the read
    // half, and the first response is in the write half.
    pool.take_job();
    let closed = connection
        .handle(
            |_req| {
                let mut response = Response::new_200_ok();
                response.set_connection_close();
                response
            },
            4096,
            &mut pool,
        )
        .expect("a closed connection is no error");
    assert!(closed.is_none());
    assert_eq!(pool.queued, 0);
}

/// A congested pool drops a kept-alive connection instead of blocking.
#[test]
fn keep_alive_sheds_on_congestion() {
    let mut pool = PoolState::new(1).expect("a positive maximum is valid");
    pool.dispatch().expect("the queue has room");
    assert_eq!(pool.queued, 1);
    let connection = Connection {
        rx: source_of(b"GET /a HTTP/1.1\r\n\r\n"),
        tx: Sink::Vector(Vec::new()),
    };
    let error = connection
        .handle(|_req| Response::new_200_ok(), 4096, &mut pool)
        .expect_err("the queue is full");
    assert_eq!(error.kind, ErrorKind::Congested);
    assert_eq!(pool.queued, 1);
}
