use vstd::prelude::*;

use crate::readiness::Readiness;

verus! {

/// Number of bytes a single transfer may move, and the bound on each
/// half's queued-byte buffer.
pub const BUFFER_SIZE: usize = 4096;

// ---------------------------------------------------------------------------
// Tokens
//
// The poller stores one opaque integer per registered source. The low two
// bits carry the kind of entity (0 = listener, 1 = incoming half, 2 =
// outgoing half), the remaining bits carry the slot index in the matching
// table. Slot 0 is reserved as a sentinel and never names a real entity.
// ---------------------------------------------------------------------------

#[derive(PartialEq, Eq, Structural, Hash, Debug, Copy, Clone)]
pub struct ListenerToken(pub usize);

#[derive(PartialEq, Eq, Structural, Hash, Debug, Copy, Clone)]
pub struct IncomingToken(pub usize);

#[derive(PartialEq, Eq, Structural, Hash, Debug, Copy, Clone)]
pub struct OutgoingToken(pub usize);

#[derive(Debug, Copy, Clone, PartialEq, Eq, Structural)]
pub enum TokenType {
    Listener(ListenerToken),
    Incoming(IncomingToken),
    Outgoing(OutgoingToken),
}

/// The largest slot index whose encoding fits in a word.
pub open spec fn max_slot() -> int {
    (usize::MAX - 3) / 4
}

/// The slot index carried by a token.
pub open spec fn spec_slot(t: TokenType) -> int {
    match t {
        TokenType::Listener(l) => l.0 as int,
        TokenType::Incoming(i) => i.0 as int,
        TokenType::Outgoing(o) => o.0 as int,
    }
}

/// The opaque integer a token encodes to.
pub open spec fn spec_raw(t: TokenType) -> int {
    match t {
        TokenType::Listener(l) => l.0 * 4,
        TokenType::Incoming(i) => i.0 * 4 + 1,
        TokenType::Outgoing(o) => o.0 * 4 + 2,
    }
}

/// The token an opaque integer decodes to. Integers with both low bits set
/// are not produced by any encoder; decoding treats them as a programming
/// error and is not defined for them.
pub open spec fn spec_from_raw(raw: int) -> TokenType
    recommends
        raw % 4 != 3,
{
    if raw % 4 == 0 {
        TokenType::Listener(ListenerToken((raw / 4) as usize))
    } else if raw % 4 == 1 {
        TokenType::Incoming(IncomingToken((raw / 4) as usize))
    } else {
        TokenType::Outgoing(OutgoingToken((raw / 4) as usize))
    }
}

impl TokenType {
    /// Decode the opaque integer the poller handed back. A raw value with
    /// both low bits set is never produced by the encoder; the caller must
    /// treat it as fatal and not call this.
    pub fn from_raw_token(t: usize) -> (r: TokenType)
        requires
            t % 4 != 3,
        ensures
            r == spec_from_raw(t as int),
    {
        let slot = t / 4;
        if t % 4 == 0 {
            TokenType::Listener(ListenerToken(slot))
        } else if t % 4 == 1 {
            TokenType::Incoming(IncomingToken(slot))
        } else {
            TokenType::Outgoing(OutgoingToken(slot))
        }
    }
}

impl ListenerToken {
    pub fn as_raw_token(self) -> (r: usize)
        requires
            self.0 <= max_slot(),
        ensures
            r == spec_raw(TokenType::Listener(self)),
    {
        proof {
            lemma_encode_fits(self.0 as int);
        }
        self.0 * 4
    }
}

impl IncomingToken {
    pub fn as_raw_token(self) -> (r: usize)
        requires
            self.0 <= max_slot(),
        ensures
            r == spec_raw(TokenType::Incoming(self)),
    {
        proof {
            lemma_encode_fits(self.0 as int);
        }
        self.0 * 4 + 1
    }
}

impl OutgoingToken {
    pub fn as_raw_token(self) -> (r: usize)
        requires
            self.0 <= max_slot(),
        ensures
            r == spec_raw(TokenType::Outgoing(self)),
    {
        proof {
            lemma_encode_fits(self.0 as int);
        }
        self.0 * 4 + 2
    }
}

/// An encoded slot leaves room for the two tag bits.
proof fn lemma_encode_fits(s: int)
    requires
        0 <= s <= max_slot(),
    ensures
        s * 4 + 3 <= usize::MAX,
{
    let m = usize::MAX as int;
    assert((m - 3) == 4 * ((m - 3) / 4) + (m - 3) % 4 && 0 <= (m - 3) % 4 < 4)
        by (nonlinear_arith);
    assert(s * 4 <= ((m - 3) / 4) * 4) by (nonlinear_arith)
        requires
            0 <= s <= (m - 3) / 4,
    ;
}

/// Token bijection: decoding an encoded token yields the token back, for
/// every slot that fits in a word less the two tag bits.
pub proof fn lemma_token_round_trip(t: TokenType)
    requires
        spec_slot(t) <= max_slot(),
    ensures
        0 <= spec_raw(t) <= usize::MAX,
        spec_raw(t) % 4 != 3,
        spec_from_raw(spec_raw(t)) == t,
{
    lemma_encode_fits(spec_slot(t));
    let s = spec_slot(t);
    assert((s * 4) % 4 == 0 && (s * 4) / 4 == s) by (nonlinear_arith)
        requires
            s >= 0,
    ;
    assert((s * 4 + 1) % 4 == 1 && (s * 4 + 1) / 4 == s) by (nonlinear_arith)
        requires
            s >= 0,
    ;
    assert((s * 4 + 2) % 4 == 2 && (s * 4 + 2) / 4 == s) by (nonlinear_arith)
        requires
            s >= 0,
    ;
}

// ---------------------------------------------------------------------------
// End points
// ---------------------------------------------------------------------------

/// Selects one half of a paired connection: `Front` is the client side,
/// `Back` the upstream side.
#[derive(Debug, Copy, Clone, PartialEq, Eq, Structural)]
pub enum EndPointType {
    Front,
    Back,
}

impl EndPointType {
    /// The other half.
    pub open spec fn spec_peer(self) -> EndPointType {
        match self {
            EndPointType::Front => EndPointType::Back,
            EndPointType::Back => EndPointType::Front,
        }
    }

    pub fn peer(self) -> (r: EndPointType)
        ensures
            r == self.spec_peer(),
    {
        match self {
            EndPointType::Front => EndPointType::Back,
            EndPointType::Back => EndPointType::Front,
        }
    }
}

/// One half of a paired connection: its stream, its readiness as last
/// reported by the poller, and the bytes queued for writing to it after a
/// short write. The two ghost logs record every byte ever read from and
/// written to the stream, so contracts can state that the pipe is
/// transparent.
pub struct EndPoint<S> {
    state: Readiness,
    stream: S,
    queued: Vec<u8>,
    read_hist: Ghost<Seq<u8>>,
    write_hist: Ghost<Seq<u8>>,
}

impl<S> EndPoint<S> {
    pub closed spec fn readiness(self) -> Readiness {
        self.state
    }

    pub closed spec fn queued_bytes(self) -> Seq<u8> {
        self.queued@
    }

    /// All bytes ever read from this half's stream, in order.
    pub closed spec fn read_log(self) -> Seq<u8> {
        self.read_hist@
    }

    /// All bytes ever written to this half's stream, in order.
    pub closed spec fn write_log(self) -> Seq<u8> {
        self.write_hist@
    }

    pub closed spec fn stream_value(self) -> S {
        self.stream
    }

    pub fn new(stream: S) -> (e: EndPoint<S>)
        ensures
            e.readiness() == Readiness::spec_empty(),
            e.queued_bytes() == Seq::<u8>::empty(),
            e.read_log() == Seq::<u8>::empty(),
            e.write_log() == Seq::<u8>::empty(),
            e.stream_value() == stream,
    {
        EndPoint {
            state: Readiness::empty(),
            stream,
            queued: Vec::new(),
            read_hist: Ghost(Seq::empty()),
            write_hist: Ghost(Seq::empty()),
        }
    }

    pub fn stream(&self) -> (r: &S)
        ensures
            *r == self.stream_value(),
    {
        &self.stream
    }
}

/// True when only the readiness of the half changed between two states.
pub open spec fn only_readiness_changed<S>(pre: EndPoint<S>, post: EndPoint<S>) -> bool {
    &&& post.queued_bytes() == pre.queued_bytes()
    &&& post.read_log() == pre.read_log()
    &&& post.write_log() == pre.write_log()
    &&& post.stream_value() == pre.stream_value()
}

// ---------------------------------------------------------------------------
// Paired connection
// ---------------------------------------------------------------------------

/// The two halves of one proxied flow plus the slot of the outgoing half,
/// so the reverse mapping can be torn down with the pair.
///
/// The connection itself performs no I/O. The embedding program reads and
/// writes the streams and reports the results through `absorb`,
/// `flush_written` and `transfer_written`; each report is a verified state
/// transition. One poller tick for the pair runs, in order: flush the
/// back queue, flush the front queue, transfer front to back, transfer
/// back to front.
pub struct Connection<S> {
    front: EndPoint<S>,
    back: EndPoint<S>,
    backend_token: OutgoingToken,
}

impl<S> Connection<S> {
    pub closed spec fn point(self, e: EndPointType) -> EndPoint<S> {
        match e {
            EndPointType::Front => self.front,
            EndPointType::Back => self.back,
        }
    }

    pub open spec fn readiness(self, e: EndPointType) -> Readiness {
        self.point(e).readiness()
    }

    /// Bytes waiting to be written to half `e` after a short write.
    pub open spec fn queued_to(self, e: EndPointType) -> Seq<u8> {
        self.point(e).queued_bytes()
    }

    /// All bytes ever read from half `e`.
    pub open spec fn read_from(self, e: EndPointType) -> Seq<u8> {
        self.point(e).read_log()
    }

    /// All bytes ever written to half `e`.
    pub open spec fn written_to(self, e: EndPointType) -> Seq<u8> {
        self.point(e).write_log()
    }

    pub open spec fn stream_of(self, e: EndPointType) -> S {
        self.point(e).stream_value()
    }

    pub closed spec fn spec_outgoing_token(self) -> OutgoingToken {
        self.backend_token
    }

    /// Every byte read from one half is either already written to the
    /// other half or still queued toward it, in order, and queues stay
    /// within the per-direction buffer bound.
    pub open spec fn wf(self) -> bool {
        &&& self.queued_to(EndPointType::Front).len() <= BUFFER_SIZE
        &&& self.queued_to(EndPointType::Back).len() <= BUFFER_SIZE
        &&& self.read_from(EndPointType::Front) == self.written_to(EndPointType::Back)
            + self.queued_to(EndPointType::Back)
        &&& self.read_from(EndPointType::Back) == self.written_to(EndPointType::Front)
            + self.queued_to(EndPointType::Front)
    }

    pub fn new(incoming_stream: S, outgoing_stream: S, outgoing_token: OutgoingToken) -> (c:
        Connection<S>)
        ensures
            c.wf(),
            c.spec_outgoing_token() == outgoing_token,
            c.readiness(EndPointType::Front) == Readiness::spec_empty(),
            c.readiness(EndPointType::Back) == Readiness::spec_empty(),
            c.queued_to(EndPointType::Front) == Seq::<u8>::empty(),
            c.queued_to(EndPointType::Back) == Seq::<u8>::empty(),
            c.read_from(EndPointType::Front) == Seq::<u8>::empty(),
            c.read_from(EndPointType::Back) == Seq::<u8>::empty(),
            c.written_to(EndPointType::Front) == Seq::<u8>::empty(),
            c.written_to(EndPointType::Back) == Seq::<u8>::empty(),
            c.stream_of(EndPointType::Front) == incoming_stream,
            c.stream_of(EndPointType::Back) == outgoing_stream,
    {
        let c = Connection {
            front: EndPoint::new(incoming_stream),
            back: EndPoint::new(outgoing_stream),
            backend_token: outgoing_token,
        };
        proof {
            assert(c.read_from(EndPointType::Front) =~= c.written_to(EndPointType::Back)
                + c.queued_to(EndPointType::Back));
            assert(c.read_from(EndPointType::Back) =~= c.written_to(EndPointType::Front)
                + c.queued_to(EndPointType::Front));
        }
        c
    }

    fn point_ref(&self, e: EndPointType) -> (r: &EndPoint<S>)
        ensures
            *r == self.point(e),
    {
        match e {
            EndPointType::Front => &self.front,
            EndPointType::Back => &self.back,
        }
    }

    /// Merge freshly reported readiness into the client half.
    pub fn incoming_ready(&mut self, events: Readiness)
        ensures
            final(self).readiness(EndPointType::Front) == old(self).readiness(
                EndPointType::Front,
            ).spec_union(events),
            only_readiness_changed(
                old(self).point(EndPointType::Front),
                final(self).point(EndPointType::Front),
            ),
            final(self).point(EndPointType::Back) == old(self).point(EndPointType::Back),
            final(self).spec_outgoing_token() == old(self).spec_outgoing_token(),
            old(self).wf() ==> final(self).wf(),
    {
        self.front.state.insert(events);
    }

    /// Merge freshly reported readiness into the upstream half.
    pub fn outgoing_ready(&mut self, events: Readiness)
        ensures
            final(self).readiness(EndPointType::Back) == old(self).readiness(
                EndPointType::Back,
            ).spec_union(events),
            only_readiness_changed(
                old(self).point(EndPointType::Back),
                final(self).point(EndPointType::Back),
            ),
            final(self).point(EndPointType::Front) == old(self).point(EndPointType::Front),
            final(self).spec_outgoing_token() == old(self).spec_outgoing_token(),
            old(self).wf() ==> final(self).wf(),
    {
        self.back.state.insert(events);
    }

    pub open spec fn spec_incoming_closed(self) -> bool {
        self.readiness(EndPointType::Front).spec_is_closed()
    }

    pub open spec fn spec_outgoing_closed(self) -> bool {
        self.readiness(EndPointType::Back).spec_is_closed()
    }

    /// True iff the client half saw `ERROR` or `HUP`.
    pub fn is_incoming_closed(&self) -> (r: bool)
        ensures
            r == self.spec_incoming_closed(),
    {
        self.front.state.is_closed()
    }

    /// True iff the upstream half saw `ERROR` or `HUP`.
    pub fn is_outgoing_closed(&self) -> (r: bool)
        ensures
            r == self.spec_outgoing_closed(),
    {
        self.back.state.is_closed()
    }

    pub fn incoming_stream(&self) -> (r: &S)
        ensures
            *r == self.stream_of(EndPointType::Front),
    {
        &self.front.stream
    }

    pub fn outgoing_stream(&self) -> (r: &S)
        ensures
            *r == self.stream_of(EndPointType::Back),
    {
        &self.back.stream
    }

    /// Mutable access to the client half's stream, as registration with a
    /// poller demands it. The connection's own state is untouched.
    pub fn incoming_stream_mut(&mut self) -> (r: &mut S)
        ensures
            *r == old(self).stream_of(EndPointType::Front),
            final(self).stream_of(EndPointType::Front) == *final(r),
            final(self).readiness(EndPointType::Front) == old(self).readiness(EndPointType::Front),
            final(self).queued_to(EndPointType::Front) == old(self).queued_to(EndPointType::Front),
            final(self).read_from(EndPointType::Front) == old(self).read_from(EndPointType::Front),
            final(self).written_to(EndPointType::Front) == old(self).written_to(
                EndPointType::Front,
            ),
            final(self).point(EndPointType::Back) == old(self).point(EndPointType::Back),
            final(self).spec_outgoing_token() == old(self).spec_outgoing_token(),
            old(self).wf() ==> final(self).wf(),
    {
        &mut self.front.stream
    }

    /// Mutable access to the upstream half's stream.
    pub fn outgoing_stream_mut(&mut self) -> (r: &mut S)
        ensures
            *r == old(self).stream_of(EndPointType::Back),
            final(self).stream_of(EndPointType::Back) == *final(r),
            final(self).readiness(EndPointType::Back) == old(self).readiness(EndPointType::Back),
            final(self).queued_to(EndPointType::Back) == old(self).queued_to(EndPointType::Back),
            final(self).read_from(EndPointType::Back) == old(self).read_from(EndPointType::Back),
            final(self).written_to(EndPointType::Back) == old(self).written_to(EndPointType::Back),
            final(self).point(EndPointType::Front) == old(self).point(EndPointType::Front),
            final(self).spec_outgoing_token() == old(self).spec_outgoing_token(),
            old(self).wf() ==> final(self).wf(),
    {
        &mut self.back.stream
    }

    /// The slot of the outgoing half, recorded at creation.
    pub fn outgoing_token(&self) -> (r: OutgoingToken)
        ensures
            r == self.spec_outgoing_token(),
    {
        self.backend_token
    }

    /// Half `e` has queued bytes and its stream reported writable: a flush
    /// should be attempted before any new transfer toward `e`.
    pub open spec fn spec_wants_flush(self, e: EndPointType) -> bool {
        self.readiness(e).writable && self.queued_to(e).len() > 0
    }

    pub fn wants_flush(&self, e: EndPointType) -> (r: bool)
        ensures
            r == self.spec_wants_flush(e),
    {
        let p = self.point_ref(e);
        p.state.writable && p.queued.len() > 0
    }

    /// The bytes currently queued toward half `e`, for the embedding
    /// program to write.
    pub fn queued(&self, e: EndPointType) -> (r: &Vec<u8>)
        ensures
            r@ == self.queued_to(e),
    {
        match e {
            EndPointType::Front => &self.front.queued,
            EndPointType::Back => &self.back.queued,
        }
    }

    /// A transfer from half `from` toward its peer may start: `from`
    /// reported readable, the peer reported writable, and nothing is
    /// queued toward the peer (queued bytes drain before any new read for
    /// that direction).
    pub open spec fn spec_wants_transfer(self, from: EndPointType) -> bool {
        &&& self.readiness(from).readable
        &&& self.readiness(from.spec_peer()).writable
        &&& self.queued_to(from.spec_peer()).len() == 0
    }

    pub fn wants_transfer(&self, from: EndPointType) -> (r: bool)
        ensures
            r == self.spec_wants_transfer(from),
    {
        let p = self.point_ref(from);
        let q = self.point_ref(from.peer());
        p.state.readable && q.state.writable && q.queued.len() == 0
    }

    /// Report the result of a queue flush: the first `n` queued bytes
    /// toward half `e` were written to its stream. Clears `WRITABLE` on
    /// `e` only when the queue fully drained; a short or would-block
    /// write leaves the readiness untouched.
    pub fn flush_written(&mut self, e: EndPointType, n: usize)
        requires
            old(self).spec_wants_flush(e),
            n <= old(self).queued_to(e).len(),
        ensures
            final(self).queued_to(e) == old(self).queued_to(e).skip(n as int),
            final(self).written_to(e) == old(self).written_to(e) + old(self).queued_to(e).take(
                n as int,
            ),
            final(self).readiness(e) == if n == old(self).queued_to(e).len() {
                old(self).readiness(e).spec_clear_writable()
            } else {
                old(self).readiness(e)
            },
            final(self).read_from(e) == old(self).read_from(e),
            final(self).stream_of(e) == old(self).stream_of(e),
            final(self).point(e.spec_peer()) == old(self).point(e.spec_peer()),
            final(self).spec_outgoing_token() == old(self).spec_outgoing_token(),
            old(self).wf() ==> final(self).wf(),
    {
        match e {
            EndPointType::Front => Self::drain(&mut self.front, n, false),
            EndPointType::Back => Self::drain(&mut self.back, n, false),
        }
        proof {
            lemma_drain_preserves_wf(*old(self), *self, e, n as int);
        }
    }

    /// Report the write attempt that follows a transfer: the first `n`
    /// bytes queued toward half `e` were written to its stream. Clears
    /// `WRITABLE` on `e` unconditionally, as the transfer step consumes
    /// the writable edge.
    pub fn transfer_written(&mut self, e: EndPointType, n: usize)
        requires
            n <= old(self).queued_to(e).len(),
        ensures
            final(self).queued_to(e) == old(self).queued_to(e).skip(n as int),
            final(self).written_to(e) == old(self).written_to(e) + old(self).queued_to(e).take(
                n as int,
            ),
            final(self).readiness(e) == old(self).readiness(e).spec_clear_writable(),
            final(self).read_from(e) == old(self).read_from(e),
            final(self).stream_of(e) == old(self).stream_of(e),
            final(self).point(e.spec_peer()) == old(self).point(e.spec_peer()),
            final(self).spec_outgoing_token() == old(self).spec_outgoing_token(),
            old(self).wf() ==> final(self).wf(),
    {
        match e {
            EndPointType::Front => Self::drain(&mut self.front, n, true),
            EndPointType::Back => Self::drain(&mut self.back, n, true),
        }
        proof {
            lemma_drain_preserves_wf(*old(self), *self, e, n as int);
        }
    }

    /// Report a read: `data` was read from half `from`'s stream. The bytes
    /// become the queue toward the peer, and the readable edge on `from`
    /// is consumed. An empty `data` reports a would-block or end-of-file
    /// read and only consumes the edge.
    pub fn absorb(&mut self, from: EndPointType, data: &[u8])
        requires
            old(self).spec_wants_transfer(from),
            data@.len() <= BUFFER_SIZE,
        ensures
            final(self).read_from(from) == old(self).read_from(from) + data@,
            final(self).readiness(from) == old(self).readiness(from).spec_clear_readable(),
            final(self).queued_to(from) == old(self).queued_to(from),
            final(self).written_to(from) == old(self).written_to(from),
            final(self).stream_of(from) == old(self).stream_of(from),
            final(self).queued_to(from.spec_peer()) == data@,
            final(self).readiness(from.spec_peer()) == old(self).readiness(from.spec_peer()),
            final(self).read_from(from.spec_peer()) == old(self).read_from(from.spec_peer()),
            final(self).written_to(from.spec_peer()) == old(self).written_to(from.spec_peer()),
            final(self).stream_of(from.spec_peer()) == old(self).stream_of(from.spec_peer()),
            final(self).spec_outgoing_token() == old(self).spec_outgoing_token(),
            old(self).wf() ==> final(self).wf(),
    {
        match from {
            EndPointType::Front => Self::absorb_pair(&mut self.front, &mut self.back, data),
            EndPointType::Back => Self::absorb_pair(&mut self.back, &mut self.front, data),
        }
        proof {
            let pre = *old(self);
            let post = *self;
            let peer = from.spec_peer();
            if pre.wf() {
                assert(post.read_from(from) =~= post.written_to(peer) + post.queued_to(peer));
                assert(post.read_from(peer) =~= post.written_to(from) + post.queued_to(from));
            }
        }
    }

    /// Remove the first `n` queued bytes of `p` into its write log and
    /// settle the writable bit.
    fn drain(p: &mut EndPoint<S>, n: usize, clear_always: bool)
        requires
            n <= old(p).queued_bytes().len(),
        ensures
            final(p).queued_bytes() == old(p).queued_bytes().skip(n as int),
            final(p).write_log() == old(p).write_log() + old(p).queued_bytes().take(n as int),
            final(p).read_log() == old(p).read_log(),
            final(p).stream_value() == old(p).stream_value(),
            final(p).readiness() == if clear_always || n == old(p).queued_bytes().len() {
                old(p).readiness().spec_clear_writable()
            } else {
                old(p).readiness()
            },
    {
        let len0 = p.queued.len();
        let ghost q0 = p.queued@;
        let mut rest: Vec<u8> = Vec::new();
        let mut i: usize = n;
        while i < p.queued.len()
            invariant
                n <= i <= q0.len(),
                p.queued@ == q0,
                rest@ == q0.subrange(n as int, i as int),
            decreases q0.len() - i,
        {
            let b = p.queued[i];
            rest.push(b);
            proof {
                assert(rest@ =~= q0.subrange(n as int, i + 1 as int));
            }
            i += 1;
        }
        proof {
            assert(rest@ =~= q0.skip(n as int));
        }
        p.queued = rest;
        proof {
            p.write_hist@ = p.write_hist@ + q0.take(n as int);
        }
        if clear_always || n == len0 {
            p.state.writable = false;
        }
    }

    /// Append the read bytes to the peer's queue and consume the readable
    /// edge on the half that was read.
    fn absorb_pair(src: &mut EndPoint<S>, dst: &mut EndPoint<S>, data: &[u8])
        requires
            old(dst).queued_bytes().len() == 0,
        ensures
            final(src).read_log() == old(src).read_log() + data@,
            final(src).readiness() == old(src).readiness().spec_clear_readable(),
            final(src).queued_bytes() == old(src).queued_bytes(),
            final(src).write_log() == old(src).write_log(),
            final(src).stream_value() == old(src).stream_value(),
            final(dst).queued_bytes() == data@,
            final(dst).readiness() == old(dst).readiness(),
            final(dst).read_log() == old(dst).read_log(),
            final(dst).write_log() == old(dst).write_log(),
            final(dst).stream_value() == old(dst).stream_value(),
    {
        let ghost d0 = dst.queued@;
        let mut i: usize = 0;
        while i < data.len()
            invariant
                i <= data@.len(),
                dst.queued@ == d0 + data@.take(i as int),
                d0.len() == 0,
                dst.state == old(dst).readiness(),
                dst.read_hist@ == old(dst).read_log(),
                dst.write_hist@ == old(dst).write_log(),
                dst.stream == old(dst).stream_value(),
            decreases data@.len() - i,
        {
            let b = data[i];
            dst.queued.push(b);
            proof {
                assert(dst.queued@ =~= d0 + data@.take(i + 1 as int));
            }
            i += 1;
        }
        proof {
            assert(dst.queued@ =~= data@);
        }
        proof {
            src.read_hist@ = src.read_hist@ + data@;
        }
        src.state.readable = false;
    }
}

/// Splitting a drained queue back together leaves the transparency
/// equation intact.
proof fn lemma_drain_preserves_wf<S>(
    pre: Connection<S>,
    post: Connection<S>,
    e: EndPointType,
    n: int,
)
    requires
        0 <= n <= pre.queued_to(e).len(),
        post.queued_to(e) == pre.queued_to(e).skip(n),
        post.written_to(e) == pre.written_to(e) + pre.queued_to(e).take(n),
        post.read_from(e) == pre.read_from(e),
        post.point(e.spec_peer()) == pre.point(e.spec_peer()),
    ensures
        pre.wf() ==> post.wf(),
{
    if pre.wf() {
        let q = pre.queued_to(e);
        let w = pre.written_to(e);
        assert((w + q.take(n)) + q.skip(n) =~= w + q);
        let peer = e.spec_peer();
        assert(peer.spec_peer() == e);
        assert(post.read_from(peer) =~= post.written_to(e) + post.queued_to(e));
        assert(post.read_from(e) =~= post.written_to(peer) + post.queued_to(peer));
    }
}

/// Byte transparency: what was written to a half, followed by what is
/// still queued toward it, is exactly what was read from the other half;
/// in particular every byte delivered is a prefix of the bytes received,
/// in order.
pub proof fn lemma_byte_transparency<S>(c: Connection<S>, e: EndPointType)
    requires
        c.wf(),
    ensures
        c.read_from(e) == c.written_to(e.spec_peer()) + c.queued_to(e.spec_peer()),
        c.written_to(e.spec_peer()) == c.read_from(e).take(
            c.written_to(e.spec_peer()).len() as int,
        ),
{
    let peer = e.spec_peer();
    assert(c.read_from(e) == c.written_to(peer) + c.queued_to(peer));
    assert(c.written_to(peer) =~= c.read_from(e).take(c.written_to(peer).len() as int));
}

} // verus!
