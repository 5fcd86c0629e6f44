//! The connection: one state machine that owns the receive and send
//! buffers, reads a request head, then its body, then writes a response,
//! and starts over while the connection is kept alive.
use crate::bound::{
    Header, HeadView, Inbound, OutView, Outbound, RequestBody, ResponseData, header_bytes,
};
use crate::buffer::{buffered, bytes_of};
use crate::headers::{KeepAlive, is_content_length, keeps_alive, law_duplicate_content_length};
use crate::payload::{EmptyPayload, PayloadStepResult, PayloadType, StepView, concat, payload_step};
use crate::request::{
    MAX_HEADERS, Request, RequestError, ScanView, head_outcome, request_scan, scanned_headers,
};
use crate::response::{ResponseHead, is_valid_status, response_head_bytes};
use crate::state::State;
use bytes::{Bytes, BytesMut};
use vstd::prelude::*;

verus! {

/// A connection as plain values: its state, the bytes received and not yet
/// consumed, and the framing of the exchange in progress.
pub struct ConnectionView {
    pub state: State,
    pub received: Seq<u8>,
    pub keep_alive: KeepAlive,
    pub payload: PayloadType,
}

pub open spec fn fresh_connection() -> ConnectionView {
    ConnectionView {
        state: State::Idle,
        received: Seq::<u8>::empty(),
        keep_alive: KeepAlive::Unspecified,
        payload: PayloadType::Empty(EmptyPayload {}),
    }
}

/// Closing discards what was received and not consumed, and the framing of
/// the exchange in progress.
pub open spec fn closed(c: ConnectionView) -> ConnectionView {
    ConnectionView {
        state: State::Closed,
        received: Seq::<u8>::empty(),
        keep_alive: KeepAlive::Unspecified,
        payload: PayloadType::Empty(EmptyPayload {}),
    }
}

/// Request bytes arrive.
pub open spec fn feed_step(c: ConnectionView, data: Seq<u8>) -> (ConnectionView, OutView) {
    let buf = c.received + data;
    match c.state {
        State::Idle => match head_outcome(buf) {
            Ok((head, info, len)) => (
                ConnectionView {
                    state: State::RequestHeadFinished,
                    received: buf.subrange(len as int, buf.len() as int),
                    keep_alive: info.keep_alive,
                    payload: info.payload_type,
                },
                OutView::RequestHead(head),
            ),
            Err(RequestError::PartialRequest) => (ConnectionView { received: buf, ..c }, OutView::PartialRequest),
            Err(e) => (closed(c), OutView::RequestErr(e)),
        },
        State::RequestHeadFinished => {
            let (p, out, rest) = payload_step(c.payload, buf);
            match out {
                StepView::Partial(b) => (
                    ConnectionView { received: rest, payload: p, ..c },
                    OutView::RequestBody(b, true),
                ),
                StepView::Finished(b) => (
                    ConnectionView { state: State::RequestBodyFinished, received: rest, payload: p, ..c },
                    OutView::RequestBody(b, false),
                ),
                StepView::Overrun => (closed(c), OutView::RequestErr(RequestError::BodyOverrun)),
                StepView::Unsupported => (closed(c), OutView::RequestErr(RequestError::UnsupportedPayload)),
            }
        },
        State::Closed => (c, OutView::Closed),
        _ => (c, OutView::OutOfSequence),
    }
}

/// The transport is gone.
pub open spec fn disconnect_step(c: ConnectionView) -> (ConnectionView, OutView) {
    (closed(c), OutView::Closed)
}

/// The application starts its response.
pub open spec fn start_response_step(c: ConnectionView, status: usize, headers: Seq<(Seq<u8>, Seq<u8>)>) -> (
    ConnectionView,
    OutView,
) {
    match c.state {
        State::RequestBodyFinished => if is_valid_status(status) {
            (
                ConnectionView { state: State::ResponseHeadFinished, ..c },
                OutView::ResponseStart(response_head_bytes(status as u16, headers)),
            )
        } else {
            (closed(c), OutView::ResponseErr)
        },
        State::Closed => (c, OutView::Closed),
        _ => (c, OutView::OutOfSequence),
    }
}

/// The application sends response body bytes; the last ones end the
/// exchange, and the connection is then ready for the next request or
/// closed.
pub open spec fn write_body_step(c: ConnectionView, body: Seq<u8>, more_body: bool) -> (ConnectionView, OutView) {
    match c.state {
        State::ResponseHeadFinished => if more_body {
            (c, OutView::ResponseBody(body))
        } else if keeps_alive(c.keep_alive) {
            (ConnectionView { state: State::Idle, ..fresh_connection().with_received(c.received) }, OutView::ResponseBody(body))
        } else {
            (closed(c), OutView::ResponseBody(body))
        },
        State::Closed => (c, OutView::Closed),
        _ => (c, OutView::OutOfSequence),
    }
}

impl ConnectionView {
    pub open spec fn with_received(self, received: Seq<u8>) -> ConnectionView {
        ConnectionView { received, ..self }
    }
}

/// Splitting a request head across deliveries changes nothing: while the
/// head is incomplete the bytes are kept, so feeding `a` and then `b` ends
/// as feeding `a + b` at once. Applied again, this covers any number of
/// pieces.
pub proof fn law_split_head(c: ConnectionView, a: Seq<u8>, b: Seq<u8>)
    requires
        c.state == State::Idle,
        feed_step(c, a).1 == OutView::PartialRequest,
    ensures
        feed_step(feed_step(c, a).0, b) == feed_step(c, a + b),
{
    assert(c.received + a + b =~= c.received + (a + b));
}

/// The connection after feeding `pieces` one after the other.
pub open spec fn feed_each(c: ConnectionView, pieces: Seq<Seq<u8>>) -> ConnectionView
    decreases pieces.len(),
{
    if pieces.len() == 0 {
        c
    } else {
        feed_each(feed_step(c, pieces[0]).0, pieces.drop_first())
    }
}

proof fn lemma_feed_each_first(c: ConnectionView, pieces: Seq<Seq<u8>>, i: int)
    requires
        0 <= i < pieces.len(),
    ensures
        feed_each(c, pieces.take(i + 1)) == feed_each(feed_step(c, pieces[0]).0, pieces.drop_first().take(i)),
{
    assert(pieces.take(i + 1).drop_first() =~= pieces.drop_first().take(i));
    assert(pieces.take(i + 1)[0] == pieces[0]);
}

/// A request head fed in any number of pieces, each of which but the last
/// leaves the head incomplete, ends as the same bytes fed at once: the same
/// connection afterwards and the same output.
pub proof fn law_split_head_pieces(c: ConnectionView, pieces: Seq<Seq<u8>>)
    requires
        c.state == State::Idle,
        pieces.len() >= 1,
        forall|i: int|
            0 <= i < pieces.len() - 1 ==> #[trigger] feed_step(feed_each(c, pieces.take(i)), pieces[i]).1
                == OutView::PartialRequest,
    ensures
        feed_step(feed_each(c, pieces.drop_last()), pieces.last()) == feed_step(c, concat(pieces)),
    decreases pieces.len(),
{
    let rest = pieces.drop_first();
    if pieces.len() == 1 {
        assert(pieces.drop_last() =~= Seq::<Seq<u8>>::empty());
        assert(rest.len() == 0);
        assert(concat(rest) =~= Seq::<u8>::empty());
        assert(concat(pieces) =~= pieces[0]);
    } else {
        assert(pieces.take(0) =~= Seq::<Seq<u8>>::empty());
        assert(feed_step(feed_each(c, pieces.take(0)), pieces[0]).1 == OutView::PartialRequest);
        let c1 = feed_step(c, pieces[0]).0;
        assert forall|i: int| 0 <= i < rest.len() - 1 implies #[trigger] feed_step(
            feed_each(c1, rest.take(i)),
            rest[i],
        ).1 == OutView::PartialRequest by {
            lemma_feed_each_first(c, pieces, i);
            assert(feed_each(c, pieces.take(i + 1)) == feed_each(c1, rest.take(i)));
            assert(rest[i] == pieces[i + 1]);
            assert(feed_step(feed_each(c, pieces.take(i + 1)), pieces[i + 1]).1 == OutView::PartialRequest);
        }
        law_split_head_pieces(c1, rest);
        assert(pieces.drop_last().drop_first() =~= rest.drop_last());
        assert(pieces.drop_last()[0] == pieces[0]);
        assert(feed_each(c, pieces.drop_last()) == feed_each(c1, rest.drop_last()));
        assert(rest.last() == pieces.last());
        law_split_head(c, pieces[0], concat(rest));
    }
}

/// Splitting a request body across deliveries changes nothing: after a
/// partial body, feeding `b` leaves the connection as feeding `a + b` at
/// once would, and the two body pieces together are the one piece that the
/// single feed gives.
pub proof fn law_split_body(c: ConnectionView, a: Seq<u8>, b: Seq<u8>)
    requires
        c.state == State::RequestHeadFinished,
        feed_step(c, a).1 == OutView::RequestBody(c.received + a, true),
    ensures
        ({
            let (c1, o1) = feed_step(c, a);
            let (c2, o2) = feed_step(c1, b);
            let (d, o) = feed_step(c, a + b);
            &&& c2 == d
            &&& match o2 {
                OutView::RequestBody(piece, more) => o == OutView::RequestBody(c.received + a + piece, more),
                _ => o == o2,
            }
        }),
{
    let c1 = feed_step(c, a).0;
    assert(c.received + a + b =~= c.received + (a + b));
    assert(c1.received + b =~= b);
}

/// No request head is emitted with more than `MAX_HEADERS` headers, nor with
/// fewer than the tokenizer found: a head comes out whole or not at all, and
/// a request with too many headers closes the connection.
pub proof fn law_header_limit(c: ConnectionView, data: Seq<u8>)
    requires
        c.state == State::Idle,
    ensures
        feed_step(c, data).1 matches OutView::RequestHead(h) ==> h.headers.len() <= MAX_HEADERS && request_scan(
            c.received + data,
            MAX_HEADERS as nat,
        ) is Complete && h.headers == scanned_headers(request_scan(c.received + data, MAX_HEADERS as nat)),
        request_scan(c.received + data, MAX_HEADERS as nat) is Complete && scanned_headers(
            request_scan(c.received + data, MAX_HEADERS as nat),
        ).len() > MAX_HEADERS ==> feed_step(c, data) == (
            closed(c),
            OutView::RequestErr(RequestError::InvalidRequest),
        ),
{
}

/// A request with two `Content-Length` headers is rejected: the connection
/// closes and no request head is emitted.
pub proof fn law_duplicate_length_closes(c: ConnectionView, data: Seq<u8>, i: int, j: int)
    requires
        c.state == State::Idle,
        request_scan(c.received + data, MAX_HEADERS as nat) is Complete,
        0 <= i < j < scanned_headers(request_scan(c.received + data, MAX_HEADERS as nat)).len(),
        is_content_length(scanned_headers(request_scan(c.received + data, MAX_HEADERS as nat))[i].0),
        is_content_length(scanned_headers(request_scan(c.received + data, MAX_HEADERS as nat))[j].0),
    ensures
        feed_step(c, data).0.state == State::Closed,
        feed_step(c, data).1 is RequestErr,
{
    law_duplicate_content_length(scanned_headers(request_scan(c.received + data, MAX_HEADERS as nat)), i, j);
}

pub struct Http11Connection {
    req_buffer: BytesMut,
    res_buffer: BytesMut,
    state: State,
    keep_alive: KeepAlive,
    payload: PayloadType,
}

/// Empties `buf`.
fn discard(buf: &mut BytesMut)
    ensures
        buffered(*final(buf)) == Seq::<u8>::empty(),
{
    let n = buf.len();
    let _ = buf.split_to(n);
    assert(buffered(*buf) =~= Seq::<u8>::empty());
}

impl Http11Connection {
    pub closed spec fn view(&self) -> ConnectionView {
        ConnectionView {
            state: self.state,
            received: buffered(self.req_buffer),
            keep_alive: self.keep_alive,
            payload: self.payload,
        }
    }

    /// Between calls the send buffer is empty: a response head is handed
    /// out as soon as it is written.
    pub closed spec fn wf(&self) -> bool {
        buffered(self.res_buffer) == Seq::<u8>::empty()
    }

    pub fn new() -> (r: Self)
        ensures
            r@ == fresh_connection(),
            r.wf(),
    {
        Http11Connection {
            req_buffer: BytesMut::new(),
            res_buffer: BytesMut::new(),
            state: State::Idle,
            keep_alive: KeepAlive::Unspecified,
            payload: PayloadType::Empty(EmptyPayload {}),
        }
    }

    fn close(&mut self)
        requires
            old(self).wf(),
        ensures
            final(self)@ == closed(old(self)@),
            final(self).wf(),
    {
        discard(&mut self.req_buffer);
        self.state = State::Closed;
        self.keep_alive = KeepAlive::Unspecified;
        self.payload = PayloadType::Empty(EmptyPayload {});
    }

    fn parse_request_head(&mut self) -> (r: Outbound)
        requires
            old(self).wf(),
            old(self).state == State::Idle,
        ensures
            (final(self)@, r@) == feed_step(old(self)@, Seq::<u8>::empty()),
            final(self).wf(),
    {
        assert(buffered(self.req_buffer) + Seq::<u8>::empty() =~= buffered(self.req_buffer));
        let mut parser = Request {};
        match parser.parse(&self.req_buffer) {
            Ok((head, info, len)) => {
                let _ = self.req_buffer.split_to(len);
                self.state = State::RequestHeadFinished;
                self.keep_alive = info.keep_alive;
                self.payload = info.payload_type;
                Outbound::RequestHead(head)
            },
            Err(RequestError::PartialRequest) => Outbound::PartialRequest,
            Err(e) => {
                self.close();
                Outbound::RequestErr(e)
            },
        }
    }

    fn parse_body(&mut self) -> (r: Outbound)
        requires
            old(self).wf(),
            old(self).state == State::RequestHeadFinished,
        ensures
            (final(self)@, r@) == feed_step(old(self)@, Seq::<u8>::empty()),
            final(self).wf(),
    {
        assert(buffered(self.req_buffer) + Seq::<u8>::empty() =~= buffered(self.req_buffer));
        match self.payload.step(&mut self.req_buffer) {
            PayloadStepResult::Partial(body) => Outbound::RequestBody(RequestBody { body, more_body: true }),
            PayloadStepResult::Finished(body) => {
                self.state = State::RequestBodyFinished;
                Outbound::RequestBody(RequestBody { body, more_body: false })
            },
            PayloadStepResult::Overrun => {
                self.close();
                Outbound::RequestErr(RequestError::BodyOverrun)
            },
            PayloadStepResult::Unsupported => {
                self.close();
                Outbound::RequestErr(RequestError::UnsupportedPayload)
            },
        }
    }

    /// Request bytes from the peer: the head while `Idle`, then the body.
    pub fn feed(&mut self, data: &[u8]) -> (r: Outbound)
        requires
            old(self).wf(),
        ensures
            (final(self)@, r@) == feed_step(old(self)@, data@),
            final(self).wf(),
    {
        match self.state {
            State::Idle => {
                self.req_buffer.extend_from_slice(data);
                let ghost mid = self@;
                let r = self.parse_request_head();
                assert(mid.received + Seq::<u8>::empty() =~= mid.received);
                r
            },
            State::RequestHeadFinished => {
                self.req_buffer.extend_from_slice(data);
                let r = self.parse_body();
                r
            },
            State::Closed => Outbound::Closed,
            _ => Outbound::OutOfSequence,
        }
    }

    /// The transport is gone: the connection closes at once.
    pub fn disconnect(&mut self) -> (r: Outbound)
        requires
            old(self).wf(),
        ensures
            (final(self)@, r@) == disconnect_step(old(self)@),
            final(self).wf(),
    {
        self.close();
        Outbound::Closed
    }

    /// The response head, once the whole request is read.
    pub fn start_response(&mut self, status: usize, headers: Vec<Header>) -> (r: Outbound)
        requires
            old(self).wf(),
        ensures
            (final(self)@, r@) == start_response_step(old(self)@, status, header_bytes(headers@)),
            final(self).wf(),
    {
        match self.state {
            State::RequestBodyFinished => {
                let mut writer = ResponseHead {};
                match writer.write(&mut self.res_buffer, status, &headers) {
                    Ok(data) => {
                        self.state = State::ResponseHeadFinished;
                        proof {
                            assert(Seq::<u8>::empty() + response_head_bytes(status as u16, header_bytes(headers@))
                                =~= response_head_bytes(status as u16, header_bytes(headers@)));
                        }
                        Outbound::ResponseStart(ResponseData { data })
                    },
                    Err(_) => {
                        self.close();
                        Outbound::ResponseErr
                    },
                }
            },
            State::Closed => Outbound::Closed,
            _ => Outbound::OutOfSequence,
        }
    }

    /// Response body bytes, passed on as they are; the last ones end the
    /// exchange.
    pub fn write_response_body(&mut self, body: Bytes, more_body: bool) -> (r: Outbound)
        requires
            old(self).wf(),
        ensures
            (final(self)@, r@) == write_body_step(old(self)@, bytes_of(body), more_body),
            final(self).wf(),
    {
        match self.state {
            State::ResponseHeadFinished => {
                if !more_body {
                    if self.keep_alive.should_keep_alive() {
                        self.state = State::Idle;
                        self.keep_alive = KeepAlive::Unspecified;
                        self.payload = PayloadType::Empty(EmptyPayload {});
                    } else {
                        self.close();
                    }
                }
                Outbound::ResponseBody(ResponseData { data: body })
            },
            State::Closed => Outbound::Closed,
            _ => Outbound::OutOfSequence,
        }
    }
    /// One input of any kind.
    pub fn step(&mut self, input: Inbound) -> (r: Outbound)
        requires
            old(self).wf(),
        ensures
            (final(self)@, r@) == match input {
                Inbound::RequestData(d) => feed_step(old(self)@, bytes_of(d.data)),
                Inbound::Disconnect => disconnect_step(old(self)@),
                Inbound::ResponseStart(s) => start_response_step(old(self)@, s.status, header_bytes(s.headers@)),
                Inbound::ResponseBody(b) => write_body_step(old(self)@, bytes_of(b.body), b.more_body),
            },
            final(self).wf(),
    {
        match input {
            Inbound::RequestData(d) => self.feed(&d.data),
            Inbound::Disconnect => self.disconnect(),
            Inbound::ResponseStart(s) => self.start_response(s.status, s.headers),
            Inbound::ResponseBody(b) => self.write_response_body(b.body, b.more_body),
        }
    }

    pub fn state(&self) -> (r: State)
        ensures
            r == self@.state,
    {
        self.state
    }

    pub fn keep_alive(&self) -> (r: KeepAlive)
        ensures
            r == self@.keep_alive,
    {
        self.keep_alive
    }

    pub fn payload(&self) -> (r: PayloadType)
        ensures
            r == self@.payload,
    {
        self.payload
    }

    /// The bytes waiting in the send buffer: none between calls.
    pub fn response_buffer_len(&self) -> (r: usize)
        requires
            self.wf(),
        ensures
            r == 0,
    {
        self.res_buffer.len()
    }
}

} // verus!
