//! An embeddable HTTP/1.1 server core: a zero-copy byte container, stream
//! endpoints, a request parser and response serializer built on them, a
//! bounded worker-pool model, and the connection cycle that ties them
//! together — parse one request, hand it to the handler, write the
//! response, and reschedule the connection instead of blocking a thread
//! when it is kept alive.

pub mod bytes;
pub mod error;
pub mod http;
pub mod log;
pub mod threadpool;
pub mod utils;

use vstd::prelude::*;
use crate::bytes::sink::Sink;
use crate::bytes::source::Source;
use crate::error::{Error, ErrorKind};
use crate::http::request::{collected_header, fields_view, parse_request_spec, Request};
use crate::http::response::{has_close_spec, Response};
use crate::threadpool::state::PoolState;

verus! {

/// How one request/response cycle relates the stream halves before and
/// after it: the read half advances past exactly the consumed header, the
/// write half grows by exactly one serialized response, and the keep flag
/// is the response's own choice — false whenever no response was written.
pub open spec fn reqresp_transition<F: Fn(Request) -> Response>(
    handler: F,
    rx0: Source,
    tx0: Sink,
    max: nat,
    rx1: Source,
    tx1: Sink,
    keep: bool,
) -> bool {
    &&& rx1.wf()
    &&& tx1.records() == tx0.records()
    &&& ({
        let rem = rx0.remaining();
        match collected_header(rem, max) {
            None => !keep && tx1.written() == tx0.written() && rx1.remaining() == rem.skip(
                max as int,
            ),
            Some(h) => {
                if h.len() == 0 {
                    !keep && tx1.written() == tx0.written() && rx1.remaining() == rem
                } else {
                    &&& rx1.remaining() == rem.skip(h.len() as int)
                    &&& match parse_request_spec(h) {
                        Err(k) => !keep && tx1.written() == tx0.written(),
                        Ok(v) => exists|req: Request, resp: Response|
                            {
                                &&& req.wf()
                                &&& req@ == v
                                &&& req.header@ == h
                                &&& #[trigger] handler.ensures((req,), resp)
                                &&& tx1.written() == tx0.written() + (
                                    if tx0.records() {
                                        resp.head() + resp.body.remaining()
                                    } else {
                                        Seq::<u8>::empty()
                                    }
                                )
                                &&& keep == !has_close_spec(fields_view(resp.fields@))
                            },
                    }
                }
            },
        }
    })
}

/// An adapter that bridges a request-to-response handler into one
/// source/sink cycle: parse one request, call the handler, write the
/// response, and say whether the connection should be kept open. A clean
/// close before any byte, a parse failure, or a response that asks for
/// closure all answer no.
#[must_use]
pub fn reqresp<F: Fn(Request) -> Response>(
    source: &mut Source,
    sink: &mut Sink,
    handler: F,
    header_size_max: usize,
) -> (keep: bool)
    requires
        old(source).wf(),
        header_size_max >= 4,
        forall|req: Request| handler.requires((req,)),
        forall|req: Request, resp: Response| #[trigger] handler.ensures((req,), resp)
            ==> resp.wf(),
    ensures
        final(source).wf(),
        reqresp_transition(
            handler,
            *old(source),
            *old(sink),
            header_size_max as nat,
            *final(source),
            *final(sink),
            keep,
        ),
{
    let request = match Request::from_stream(source, header_size_max) {
        Ok(Some(request)) => request,
        Ok(None) => {
            proof {
                assert(source.remaining() =~= old(source).remaining());
            }
            return false;
        },
        Err(_) => {
            return false;
        },
    };
    let ghost greq = request;
    let mut response = handler(request);
    let ghost gresp = response;
    match response.to_stream(sink) {
        Ok(()) => {},
        Err(_) => {},
    }
    let keep = !response.has_connection_close();
    proof {
        assert(fields_view(response.fields@) == fields_view(gresp.fields@));
        assert(greq.wf() && handler.ensures((greq,), gresp) && keep == !has_close_spec(
            fields_view(gresp.fields@),
        ));
    }
    keep
}

/// One connection's two stream halves, handed from cycle to cycle.
#[derive(Debug)]
pub struct Connection {
    /// The receiving half of the stream.
    pub rx: Source,
    /// The writing half of the stream.
    pub tx: Sink,
}

impl Connection {
    /// Runs one request/response cycle and reschedules. A kept-alive
    /// connection re-enters the pool bookkeeping through exactly one
    /// dispatch and comes back with the same halves, advanced past the
    /// request and response; a closed one leaves the bookkeeping
    /// untouched. A congested pool drops the connection instead of
    /// blocking.
    pub fn handle<F: Fn(Request) -> Response>(
        self,
        handler: F,
        header_size_max: usize,
        pool: &mut PoolState,
    ) -> (r: Result<Option<Connection>, Error>)
        requires
            self.rx.wf(),
            header_size_max >= 4,
            old(pool).wf(),
            forall|req: Request| handler.requires((req,)),
            forall|req: Request, resp: Response| #[trigger] handler.ensures((req,), resp)
                ==> resp.wf(),
        ensures
            final(pool).wf(),
            match r {
                Ok(c) => match c {
                    None => *final(pool) == *old(pool),
                    Some(c) => reqresp_transition(
                        handler,
                        self.rx,
                        self.tx,
                        header_size_max as nat,
                        c.rx,
                        c.tx,
                        true,
                    ) && PoolState::dispatch_spec(*old(pool)) == (*final(pool), false),
                },
                Err(e) => e.kind == ErrorKind::Congested && PoolState::dispatch_spec(
                    *old(pool),
                ) == (*final(pool), true),
            },
    {
        let mut conn = self;
        let keep = reqresp(&mut conn.rx, &mut conn.tx, handler, header_size_max);
        if keep {
            match pool.dispatch() {
                Ok(()) => Ok(Some(conn)),
                Err(e) => Err(e),
            }
        } else {
            Ok(None)
        }
    }
}

} // verus!

