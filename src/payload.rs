//! The payload decoder: consumes the body bytes that the receive buffer
//! holds, according to the framing chosen when the request head was read.
use crate::buffer::{buffered, bytes_of};
use bytes::{Bytes, BytesMut};
use vstd::prelude::*;

verus! {

/// A request without a body.
#[derive(Debug, Clone, Copy, PartialEq, Eq, Structural)]
pub struct EmptyPayload {}

/// A body framed by `Content-Length`; `remaining` counts the bytes still due.
#[derive(Debug, Clone, Copy, PartialEq, Eq, Structural)]
pub struct LengthedPayload {
    pub remaining: u64,
}

/// A body in chunked transfer coding, which this engine does not decode.
#[derive(Debug, Clone, Copy, PartialEq, Eq, Structural)]
pub struct ChunkedPayload {}

/// A connection handed over to the WebSocket protocol, not decoded here.
#[derive(Debug, Clone, Copy, PartialEq, Eq, Structural)]
pub struct WebSocketUpgrade {}

#[derive(Debug, Clone, Copy, PartialEq, Eq, Structural)]
pub enum PayloadType {
    WebSocketUpgrade(WebSocketUpgrade),
    ChunkedPayload(ChunkedPayload),
    LengthedPayload(LengthedPayload),
    Empty(EmptyPayload),
}

/// What one step of the decoder produced.
#[derive(Debug)]
pub enum PayloadStepResult {
    /// Body bytes; more are due.
    Partial(Bytes),
    /// The last body bytes.
    Finished(Bytes),
    /// More bytes arrived than the declared length allows.
    Overrun,
    /// The framing is one that this engine does not decode.
    Unsupported,
}

/// The meaning of a `PayloadStepResult`, with its bytes as a sequence.
pub enum StepView {
    Partial(Seq<u8>),
    Finished(Seq<u8>),
    Overrun,
    Unsupported,
}

impl PayloadStepResult {
    pub open spec fn view(&self) -> StepView {
        match self {
            PayloadStepResult::Partial(b) => StepView::Partial(bytes_of(*b)),
            PayloadStepResult::Finished(b) => StepView::Finished(bytes_of(*b)),
            PayloadStepResult::Overrun => StepView::Overrun,
            PayloadStepResult::Unsupported => StepView::Unsupported,
        }
    }
}

/// One step of a `Content-Length` decoder that still expects `remaining`
/// bytes and finds `avail` buffered: the new count, the result and what
/// stays in the buffer.
pub open spec fn lengthed_step(remaining: u64, avail: Seq<u8>) -> (u64, StepView, Seq<u8>) {
    if avail.len() < remaining {
        ((remaining - avail.len()) as u64, StepView::Partial(avail), Seq::<u8>::empty())
    } else if avail.len() == remaining {
        (0u64, StepView::Finished(avail), Seq::<u8>::empty())
    } else {
        (remaining, StepView::Overrun, avail)
    }
}

/// One step of the decoder `p` on the buffered bytes `avail`: the decoder
/// afterwards, the result and what stays in the buffer.
pub open spec fn payload_step(p: PayloadType, avail: Seq<u8>) -> (PayloadType, StepView, Seq<u8>) {
    match p {
        PayloadType::Empty(_) => (p, StepView::Finished(Seq::<u8>::empty()), avail),
        PayloadType::LengthedPayload(l) => {
            let (rem, out, rest) = lengthed_step(l.remaining, avail);
            (PayloadType::LengthedPayload(LengthedPayload { remaining: rem }), out, rest)
        },
        _ => (p, StepView::Unsupported, avail),
    }
}

/// Deliveries of bytes, one after the other.
pub open spec fn concat(chunks: Seq<Seq<u8>>) -> Seq<u8>
    decreases chunks.len(),
{
    if chunks.len() == 0 {
        Seq::<u8>::empty()
    } else {
        chunks[0] + concat(chunks.drop_first())
    }
}

/// The results of a `Content-Length` decoder that expects `remaining`
/// bytes and is stepped once per delivery in `chunks`.
pub open spec fn lengthed_run(remaining: u64, chunks: Seq<Seq<u8>>) -> Seq<StepView>
    decreases chunks.len(),
{
    if chunks.len() == 0 {
        Seq::<StepView>::empty()
    } else {
        let (rem, out, _) = lengthed_step(remaining, chunks[0]);
        seq![out] + lengthed_run(rem, chunks.drop_first())
    }
}

proof fn lemma_concat_covers_last(chunks: Seq<Seq<u8>>)
    requires
        chunks.len() >= 1,
    ensures
        concat(chunks).len() >= chunks.last().len(),
    decreases chunks.len(),
{
    if chunks.len() > 1 {
        lemma_concat_covers_last(chunks.drop_first());
    }
}

/// A body of `n` declared bytes, delivered in any number of pieces whose
/// last one is not empty, drives the decoder through one `Partial` per
/// piece but the last and exactly one `Finished`, for the last; each result
/// carries its piece, so together they carry exactly the `n` bytes.
pub proof fn law_lengthed_delivery(n: u64, chunks: Seq<Seq<u8>>)
    requires
        chunks.len() >= 1,
        concat(chunks).len() == n,
        chunks.len() == 1 || chunks.last().len() > 0,
    ensures
        lengthed_run(n, chunks).len() == chunks.len(),
        forall|i: int| 0 <= i < chunks.len() - 1 ==> #[trigger] lengthed_run(n, chunks)[i] == StepView::Partial(chunks[i]),
        lengthed_run(n, chunks).last() == StepView::Finished(chunks.last()),
    decreases chunks.len(),
{
    let rest = chunks.drop_first();
    if chunks.len() == 1 {
        assert(rest.len() == 0);
        assert(concat(rest) =~= Seq::<u8>::empty());
        assert(chunks[0] + concat(rest) =~= chunks[0]);
        assert(chunks[0].len() == n);
        let (rem, out, _) = lengthed_step(n, chunks[0]);
        assert(out == StepView::Finished(chunks[0]));
        assert(lengthed_run(rem, rest) =~= Seq::<StepView>::empty());
        assert(lengthed_run(n, chunks) =~= seq![StepView::Finished(chunks[0])]);
    } else {
        lemma_concat_covers_last(rest);
        assert(rest.last() == chunks.last());
        let m = (n - chunks[0].len()) as u64;
        law_lengthed_delivery(m, rest);
        let run = lengthed_run(n, chunks);
        assert(run == seq![StepView::Partial(chunks[0])] + lengthed_run(m, rest));
        assert forall|i: int| 0 <= i < chunks.len() - 1 implies #[trigger] run[i] == StepView::Partial(chunks[i]) by {
            if i > 0 {
                assert(run[i] == lengthed_run(m, rest)[i - 1]);
                assert(rest[i - 1] == chunks[i]);
            }
        }
    }
}

impl EmptyPayload {
    /// There is no body: finished at once, with nothing consumed.
    pub fn step(&mut self, buffer: &mut BytesMut) -> (r: PayloadStepResult)
        ensures
            r@ == StepView::Finished(Seq::<u8>::empty()),
            buffered(*final(buffer)) == buffered(*old(buffer)),
            *final(self) == *old(self),
    {
        PayloadStepResult::Finished(Bytes::new())
    }
}

impl LengthedPayload {
    pub fn new(length: u64) -> (r: Self)
        ensures
            r.remaining == length,
    {
        LengthedPayload { remaining: length }
    }

    /// Takes every buffered byte while no more than `remaining` are there;
    /// more than that is an overrun, and nothing is taken.
    pub fn step(&mut self, buffer: &mut BytesMut) -> (r: PayloadStepResult)
        ensures
            (final(self).remaining, r@, buffered(*final(buffer)))
                == lengthed_step(old(self).remaining, buffered(*old(buffer))),
    {
        let available = buffer.len();
        if (available as u64) < self.remaining {
            let body = buffer.split_to(available).freeze();
            self.remaining = self.remaining - available as u64;
            assert(buffered(*buffer) =~= Seq::<u8>::empty());
            assert(bytes_of(body) =~= buffered(*old(buffer)));
            PayloadStepResult::Partial(body)
        } else if available as u64 == self.remaining {
            let body = buffer.split_to(available).freeze();
            self.remaining = 0;
            assert(buffered(*buffer) =~= Seq::<u8>::empty());
            assert(bytes_of(body) =~= buffered(*old(buffer)));
            PayloadStepResult::Finished(body)
        } else {
            PayloadStepResult::Overrun
        }
    }
}

impl ChunkedPayload {
    /// Chunked bodies are not decoded: the step fails closed.
    pub fn step(&mut self, buffer: &mut BytesMut) -> (r: PayloadStepResult)
        ensures
            r@ == StepView::Unsupported,
            buffered(*final(buffer)) == buffered(*old(buffer)),
            *final(self) == *old(self),
    {
        PayloadStepResult::Unsupported
    }
}

impl WebSocketUpgrade {
    /// WebSocket traffic is not decoded here: the step fails closed.
    pub fn step(&mut self, buffer: &mut BytesMut) -> (r: PayloadStepResult)
        ensures
            r@ == StepView::Unsupported,
            buffered(*final(buffer)) == buffered(*old(buffer)),
            *final(self) == *old(self),
    {
        PayloadStepResult::Unsupported
    }
}

impl PayloadType {
    pub fn new_none() -> (r: Self)
        ensures
            r == PayloadType::Empty(EmptyPayload {}),
    {
        PayloadType::Empty(EmptyPayload {})
    }

    pub fn new_lengthed(length: u64) -> (r: Self)
        ensures
            r == PayloadType::LengthedPayload(LengthedPayload { remaining: length }),
    {
        PayloadType::LengthedPayload(LengthedPayload { remaining: length })
    }

    pub fn new_chunked() -> (r: Self)
        ensures
            r == PayloadType::ChunkedPayload(ChunkedPayload {}),
    {
        PayloadType::ChunkedPayload(ChunkedPayload {})
    }

    pub fn new_websocket_upgrade() -> (r: Self)
        ensures
            r == PayloadType::WebSocketUpgrade(WebSocketUpgrade {}),
    {
        PayloadType::WebSocketUpgrade(WebSocketUpgrade {})
    }

    /// One decoder step on the bytes that `buffer` holds.
    pub fn step(&mut self, buffer: &mut BytesMut) -> (r: PayloadStepResult)
        ensures
            (*final(self), r@, buffered(*final(buffer))) == payload_step(*old(self), buffered(*old(buffer))),
    {
        match self {
            PayloadType::WebSocketUpgrade(p) => p.step(buffer),
            PayloadType::ChunkedPayload(p) => p.step(buffer),
            PayloadType::LengthedPayload(p) => p.step(buffer),
            PayloadType::Empty(p) => p.step(buffer),
        }
    }
}

} // verus!
