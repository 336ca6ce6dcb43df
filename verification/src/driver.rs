use vstd::prelude::*;

use crate::addr::Addr;
use crate::config::ResolvedConfig;
use crate::connection::{Connection, IncomingToken, ListenerToken, OutgoingToken};
use crate::driver_state::{DriverState, Listener};
use crate::error::Error;
use crate::frontend::Frontend;
use crate::slab::Slab;

verus! {

broadcast use crate::slab::lemma_has_in_range, crate::slab::lemma_bounds_nonneg, crate::slab::lemma_count_bounds, crate::slab::lemma_range_fits;

/// The dispatcher's state: the paired-connection tables, the set of
/// connections whose poller interest must be re-armed at the next tick
/// boundary, and the listener registry with its routers.
///
/// The driver performs no I/O itself. The embedding program polls,
/// accepts, connects, reads and writes; every decision — which target a
/// new connection goes to, which slots a pair occupies, when a pair is
/// torn down, what must be re-registered — is made here.
pub struct Driver<L, S> {
    to_reregister: Vec<IncomingToken>,
    incoming_connections: Slab<Connection<S>>,
    outgoing_connections_token: Slab<Option<IncomingToken>>,
    state: DriverState<L>,
}

impl<L, S> Driver<L, S> {
    /// The table of paired connections, by incoming slot.
    pub closed spec fn spec_incoming(self) -> Slab<Connection<S>> {
        self.incoming_connections
    }

    /// The reverse mapping, by outgoing slot: the incoming slot of the
    /// pair, or `None` for an outgoing half whose pair is being released.
    pub closed spec fn spec_outgoing(self) -> Slab<Option<IncomingToken>> {
        self.outgoing_connections_token
    }

    /// The listener registry and routers.
    pub closed spec fn spec_state(self) -> DriverState<L> {
        self.state
    }

    /// The incoming slots whose poller interest needs re-arming.
    pub closed spec fn spec_reregister(self) -> Seq<IncomingToken> {
        self.to_reregister@
    }

    /// The pair rooted at incoming slot `i` is coherent: the connection
    /// is well formed and the outgoing table points back at `i`.
    pub open spec fn pair_ok(self, i: int) -> bool {
        let o = self.spec_incoming().at(i).spec_outgoing_token().0 as int;
        &&& self.spec_incoming().at(i).wf()
        &&& self.spec_outgoing().has(o)
        &&& self.spec_outgoing().at(o) == Some(IncomingToken(i as usize))
    }

    /// An occupied outgoing slot that still holds a pair points at an
    /// incoming slot whose connection points back.
    pub open spec fn rev_ok(self, o: int) -> bool {
        self.spec_outgoing().at(o) is Some ==> {
            let i = (self.spec_outgoing().at(o)->Some_0).0 as int;
            &&& self.spec_incoming().has(i)
            &&& self.spec_incoming().at(i).spec_outgoing_token().0 as int == o
        }
    }

    pub open spec fn wf(self) -> bool {
        &&& self.spec_state().wf()
        &&& self.spec_incoming().inv()
        &&& self.spec_outgoing().inv()
        &&& self.spec_incoming().start() == 1
        &&& self.spec_outgoing().start() == 1
        &&& forall|i: int| #[trigger] self.spec_incoming().has(i) ==> self.pair_ok(i)
        &&& forall|o: int| #[trigger] self.spec_outgoing().has(o) ==> self.rev_ok(o)
    }

    /// A fresh driver around an existing listener registry, with empty
    /// connection tables whose slots start at 1, leaving slot 0 as the
    /// sentinel.
    pub fn new(state: DriverState<L>) -> (d: Driver<L, S>)
        requires
            state.wf(),
            state.buffers.connections < usize::MAX,
        ensures
            d.wf(),
            d.spec_state() == state,
            d.spec_incoming().spec_count() == 0,
            d.spec_outgoing().spec_count() == 0,
            d.spec_incoming().capacity() == state.buffers.connections,
            d.spec_outgoing().capacity() == state.buffers.connections,
            forall|i: int| !d.spec_incoming().has(i),
            forall|o: int| !d.spec_outgoing().has(o),
            d.spec_reregister() == Seq::<IncomingToken>::empty(),
    {
        let cap = state.buffers.connections;
        Driver {
            to_reregister: Vec::new(),
            incoming_connections: Slab::new(1, cap),
            outgoing_connections_token: Slab::new(1, cap),
            state,
        }
    }

    /// The listener registry, for the embedding program to inspect.
    pub fn state(&self) -> (r: &DriverState<L>)
        ensures
            *r == self.spec_state(),
    {
        &self.state
    }

    /// Mutable access to the listener registry, through which the
    /// embedding program applies reconfigurations and registers bound
    /// sockets. The connection tables are untouched; rebuilding the
    /// driver's well-formedness needs only that the registry stays well
    /// formed (`lemma_wf_state_replaced`).
    pub fn state_mut(&mut self) -> (r: &mut DriverState<L>)
        ensures
            *r == old(self).spec_state(),
            final(self).spec_state() == *final(r),
            final(self).spec_incoming() == old(self).spec_incoming(),
            final(self).spec_outgoing() == old(self).spec_outgoing(),
            final(self).spec_reregister() == old(self).spec_reregister(),
    {
        &mut self.state
    }

    /// Replacing the listener registry by another well-formed one keeps
    /// the driver well formed: the pair invariants do not involve it.
    pub proof fn lemma_wf_state_replaced(pre: Driver<L, S>, post: Driver<L, S>)
        requires
            pre.wf(),
            post.spec_state().wf(),
            post.spec_incoming() == pre.spec_incoming(),
            post.spec_outgoing() == pre.spec_outgoing(),
        ensures
            post.wf(),
    {
        assert forall|i: int| #[trigger] post.spec_incoming().has(i) implies post.pair_ok(i) by {
            assert(pre.spec_incoming().has(i));
            assert(pre.pair_ok(i));
        }
        assert forall|o: int| #[trigger] post.spec_outgoing().has(o) implies post.rev_ok(o) by {
            assert(pre.spec_outgoing().has(o));
            assert(pre.rev_ok(o));
        }
    }

    /// The listener named by a token, for the accept path and re-arming.
    pub fn listener(&self, token: ListenerToken) -> (r: Option<&Listener<L>>)
        ensures
            match r {
                Some(l) => self.spec_state().listeners.has(token.0 as int) && *l
                    == self.spec_state().listeners.at(token.0 as int),
                None => !self.spec_state().listeners.has(token.0 as int),
            },
    {
        self.state.listeners.get(token.0)
    }

    /// Choose the upstream target for a connection accepted on the given
    /// listener, advancing that backend's round-robin cursor.
    pub fn decide_target(&mut self, token: ListenerToken) -> (r: Option<Addr>)
        requires
            old(self).wf(),
        ensures
            final(self).wf(),
            final(self).spec_incoming() == old(self).spec_incoming(),
            final(self).spec_outgoing() == old(self).spec_outgoing(),
            final(self).spec_reregister() == old(self).spec_reregister(),
            final(self).spec_state().listeners == old(self).spec_state().listeners,
            match r {
                None => final(self).spec_state() == old(self).spec_state() && (!old(self).spec_state().listeners.has(token.0 as int) || (old(self).spec_state().listeners.at(
                    token.0 as int,
                ).frontend.backend_list()[0] as int) >= old(self).spec_state().backends@.len()),
                Some(a) => {
                    let st = old(self).spec_state();
                    let j = st.listeners.at(token.0 as int).frontend.backend_list()[0] as int;
                    &&& st.listeners.has(token.0 as int)
                    &&& 0 <= j < st.backends@.len()
                    &&& a == st.backends@[j].targets_seq()[st.backends@[j].cursor()]
                    &&& final(self).spec_state().backends@[j].cursor() == (st.backends@[j].cursor()
                        + 1) % (st.backends@[j].targets_seq().len() as int)
                    &&& final(self).spec_state().backends@[j].targets_seq()
                        == st.backends@[j].targets_seq()
                    &&& forall|b: int|
                        0 <= b < st.backends@.len() && b != j ==> final(self).spec_state().backends@[b] == st.backends@[b]
                },
            },
    {
        let ghost pre = *self;
        let r = self.state.decide_target(token);
        proof {
            Self::lemma_wf_state_replaced(pre, *self);
        }
        r
    }

    /// Allocate a pair of slots for a freshly accepted connection and its
    /// freshly opened upstream half: the connection goes into the lowest
    /// free incoming slot knowing its outgoing slot, and the outgoing
    /// table records the reverse mapping. Fails with `SlabFull`, leaving
    /// the tables as they were, exactly when either table is full; the
    /// two streams are dropped then, which closes them.
    pub fn insert_pair(&mut self, incoming_stream: S, outgoing_stream: S) -> (r: Result<
        (IncomingToken, OutgoingToken),
        Error,
    >)
        requires
            old(self).wf(),
        ensures
            final(self).wf(),
            final(self).spec_state() == old(self).spec_state(),
            final(self).spec_reregister() == old(self).spec_reregister(),
            final(self).spec_incoming().start() == old(self).spec_incoming().start(),
            final(self).spec_incoming().capacity() == old(self).spec_incoming().capacity(),
            final(self).spec_outgoing().start() == old(self).spec_outgoing().start(),
            final(self).spec_outgoing().capacity() == old(self).spec_outgoing().capacity(),
            match r {
                Err(e) => {
                    &&& e == Error::SlabFull
                    &&& (old(self).spec_incoming().spec_count() == old(self).spec_incoming().capacity() || old(self).spec_outgoing().spec_count() == old(self).spec_outgoing().capacity())
                    &&& forall|x: int|
                        final(self).spec_incoming().entry(x) == old(self).spec_incoming().entry(x)
                    &&& forall|y: int|
                        final(self).spec_outgoing().entry(y) == old(self).spec_outgoing().entry(y)
                    &&& final(self).spec_incoming().spec_count() == old(self).spec_incoming().spec_count()
                    &&& final(self).spec_outgoing().spec_count() == old(self).spec_outgoing().spec_count()
                },
                Ok((it, ot)) => {
                    let i = it.0 as int;
                    let o = ot.0 as int;
                    let c = final(self).spec_incoming().at(i);
                    &&& 1 <= i && i < 1 + old(self).spec_incoming().capacity()
                    &&& 1 <= o && o < 1 + old(self).spec_outgoing().capacity()
                    &&& !old(self).spec_incoming().has(i)
                    &&& !old(self).spec_outgoing().has(o)
                    &&& forall|t: int| 1 <= t < i ==> old(self).spec_incoming().has(t)
                    &&& forall|t: int| 1 <= t < o ==> old(self).spec_outgoing().has(t)
                    &&& final(self).spec_incoming().has(i)
                    &&& final(self).spec_outgoing().has(o)
                    &&& final(self).spec_outgoing().at(o) == Some(it)
                    &&& c.wf()
                    &&& c.spec_outgoing_token() == ot
                    &&& c.stream_of(crate::connection::EndPointType::Front) == incoming_stream
                    &&& c.stream_of(crate::connection::EndPointType::Back) == outgoing_stream
                    &&& c.readiness(crate::connection::EndPointType::Front)
                        == crate::readiness::Readiness::spec_empty()
                    &&& c.readiness(crate::connection::EndPointType::Back)
                        == crate::readiness::Readiness::spec_empty()
                    &&& c.read_from(crate::connection::EndPointType::Front) == Seq::<u8>::empty()
                    &&& c.read_from(crate::connection::EndPointType::Back) == Seq::<u8>::empty()
                    &&& forall|x: int|
                        x != i ==> final(self).spec_incoming().entry(x) == old(self).spec_incoming().entry(x)
                    &&& forall|y: int|
                        y != o ==> final(self).spec_outgoing().entry(y) == old(self).spec_outgoing().entry(y)
                    &&& final(self).spec_incoming().spec_count() == old(self).spec_incoming().spec_count() + 1
                    &&& final(self).spec_outgoing().spec_count() == old(self).spec_outgoing().spec_count() + 1
                },
            },
    {
        let o = match self.outgoing_connections_token.insert(None) {
            Ok(o) => o,
            Err(_) => {
                return Err(Error::SlabFull);
            },
        };
        let conn = Connection::new(incoming_stream, outgoing_stream, OutgoingToken(o));
        let i = match self.incoming_connections.insert(conn) {
            Ok(i) => i,
            Err(_) => {
                self.outgoing_connections_token.remove(o);
                proof {
                    assert forall|x: int| #[trigger] self.spec_incoming().has(x)
                        implies self.pair_ok(x) by {
                        assert(old(self).spec_incoming().has(x));
                        assert(old(self).pair_ok(x));
                        let ox = old(self).spec_incoming().at(x).spec_outgoing_token().0 as int;
                        assert(old(self).spec_outgoing().has(ox));
                        assert(ox != o as int);
                        assert(self.spec_outgoing().entry(ox) == old(self).spec_outgoing().entry(
                            ox,
                        ));
                    }
                    assert forall|y: int| #[trigger] self.spec_outgoing().has(y)
                        implies self.rev_ok(y) by {
                        assert(y != o as int);
                        assert(self.spec_outgoing().entry(y) == old(self).spec_outgoing().entry(
                            y,
                        ));
                        assert(old(self).spec_outgoing().has(y));
                        assert(old(self).rev_ok(y));
                    }
                    assert(self.wf());
                }
                return Err(Error::SlabFull);
            },
        };
        self.outgoing_connections_token.set_at(o, Some(IncomingToken(i)));
        proof {
            assert forall|x: int| #[trigger] self.spec_incoming().has(x) implies self.pair_ok(
                x,
            ) by {
                if x != i as int {
                    assert(self.spec_incoming().entry(x) == old(self).spec_incoming().entry(x));
                    assert(old(self).spec_incoming().has(x));
                    assert(old(self).pair_ok(x));
                    let ox = old(self).spec_incoming().at(x).spec_outgoing_token().0 as int;
                    assert(old(self).spec_outgoing().has(ox));
                    assert(ox != o as int);
                    assert(self.spec_outgoing().entry(ox) == old(self).spec_outgoing().entry(ox));
                }
            }
            assert forall|y: int| #[trigger] self.spec_outgoing().has(y) implies self.rev_ok(
                y,
            ) by {
                if y != o as int {
                    assert(self.spec_outgoing().entry(y) == old(self).spec_outgoing().entry(y));
                    assert(old(self).spec_outgoing().has(y));
                    assert(old(self).rev_ok(y));
                    if old(self).spec_outgoing().at(y) is Some {
                        let iy = (old(self).spec_outgoing().at(y)->Some_0).0 as int;
                        assert(old(self).spec_incoming().has(iy));
                        assert(iy != i as int);
                        assert(self.spec_incoming().entry(iy) == old(self).spec_incoming().entry(
                            iy,
                        ));
                    }
                }
            }
            assert(self.wf());
        }
        Ok((IncomingToken(i), OutgoingToken(o)))
    }

    /// The incoming slot an outgoing token maps to, honoring the `None`
    /// sentinel of an outgoing half whose pair has been released.
    pub fn lookup_by_outgoing(&self, token: OutgoingToken) -> (r: Option<IncomingToken>)
        ensures
            match r {
                Some(i) => self.spec_outgoing().has(token.0 as int) && self.spec_outgoing().at(
                    token.0 as int,
                ) == Some(i),
                None => !self.spec_outgoing().has(token.0 as int) || self.spec_outgoing().at(
                    token.0 as int,
                ) is None,
            },
    {
        match self.outgoing_connections_token.get(token.0) {
            Some(entry) => *entry,
            None => None,
        }
    }

    /// The paired connection in an incoming slot.
    pub fn connection(&self, token: IncomingToken) -> (r: Option<&Connection<S>>)
        ensures
            match r {
                Some(c) => self.spec_incoming().has(token.0 as int) && *c
                    == self.spec_incoming().at(token.0 as int),
                None => !self.spec_incoming().has(token.0 as int),
            },
    {
        self.incoming_connections.get(token.0)
    }

    /// Mutable access to a paired connection, for the embedding program
    /// to feed readiness and I/O results through the connection's own
    /// verified transitions.
    pub fn connection_mut(&mut self, token: IncomingToken) -> (r: Option<&mut Connection<S>>)
        ensures
            match r {
                None => !old(self).spec_incoming().has(token.0 as int) && *final(self) == *old(self),
                Some(c) => {
                    &&& old(self).spec_incoming().has(token.0 as int)
                    &&& *c == old(self).spec_incoming().at(token.0 as int)
                    &&& final(self).spec_incoming().has(token.0 as int)
                    &&& final(self).spec_incoming().at(token.0 as int) == *final(c)
                    &&& forall|x: int|
                        x != token.0 as int ==> final(self).spec_incoming().entry(x) == old(self).spec_incoming().entry(x)
                    &&& final(self).spec_incoming().spec_count() == old(self).spec_incoming().spec_count()
                    &&& final(self).spec_incoming().start() == old(self).spec_incoming().start()
                    &&& final(self).spec_incoming().capacity() == old(self).spec_incoming().capacity()
                    &&& final(self).spec_outgoing() == old(self).spec_outgoing()
                    &&& final(self).spec_state() == old(self).spec_state()
                    &&& final(self).spec_reregister() == old(self).spec_reregister()
                },
            },
    {
        self.incoming_connections.get_mut(token.0)
    }

    /// Tear a pair down: free the incoming slot and the outgoing slot it
    /// points at, and hand the connection back so the embedding program
    /// can drop both sockets. Both slots become free at once, so slab
    /// occupancy counts witness that nothing leaks.
    pub fn remove_connection(&mut self, token: IncomingToken) -> (c: Connection<S>)
        requires
            old(self).wf(),
            old(self).spec_incoming().has(token.0 as int),
        ensures
            final(self).wf(),
            c == old(self).spec_incoming().at(token.0 as int),
            !final(self).spec_incoming().has(token.0 as int),
            !final(self).spec_outgoing().has(c.spec_outgoing_token().0 as int),
            forall|x: int|
                x != token.0 as int ==> final(self).spec_incoming().entry(x) == old(self).spec_incoming().entry(x),
            forall|y: int|
                y != c.spec_outgoing_token().0 as int ==> final(self).spec_outgoing().entry(y)
                    == old(self).spec_outgoing().entry(y),
            final(self).spec_incoming().spec_count() == old(self).spec_incoming().spec_count() - 1,
            final(self).spec_outgoing().spec_count() == old(self).spec_outgoing().spec_count() - 1,
            final(self).spec_incoming().start() == old(self).spec_incoming().start(),
            final(self).spec_incoming().capacity() == old(self).spec_incoming().capacity(),
            final(self).spec_outgoing().start() == old(self).spec_outgoing().start(),
            final(self).spec_outgoing().capacity() == old(self).spec_outgoing().capacity(),
            final(self).spec_state() == old(self).spec_state(),
            final(self).spec_reregister() == old(self).spec_reregister(),
    {
        let c = self.incoming_connections.remove(token.0).unwrap();
        let o = c.outgoing_token();
        self.outgoing_connections_token.remove(o.0);
        proof {
            assert forall|x: int| #[trigger] self.spec_incoming().has(x) implies self.pair_ok(
                x,
            ) by {
                assert(x != token.0 as int);
                assert(self.spec_incoming().entry(x) == old(self).spec_incoming().entry(x));
                assert(old(self).spec_incoming().has(x));
                assert(old(self).pair_ok(x));
                let ox = old(self).spec_incoming().at(x).spec_outgoing_token().0 as int;
                assert(1 <= x < old(self).spec_incoming().start() + old(
                    self,
                ).spec_incoming().capacity());
                assert((x as usize) as int == x);
                assert(old(self).spec_outgoing().at(ox) == Some(IncomingToken(x as usize)));
                assert(old(self).pair_ok(token.0 as int));
                if ox == o.0 as int {
                    assert(old(self).spec_outgoing().at(ox) == Some(token));
                    assert(IncomingToken(x as usize) == token);
                    assert(false);
                }
                assert(self.spec_outgoing().entry(ox) == old(self).spec_outgoing().entry(ox));
            }
            assert forall|y: int| #[trigger] self.spec_outgoing().has(y) implies self.rev_ok(
                y,
            ) by {
                assert(y != o.0 as int);
                assert(self.spec_outgoing().entry(y) == old(self).spec_outgoing().entry(y));
                assert(old(self).spec_outgoing().has(y));
                assert(old(self).rev_ok(y));
                if old(self).spec_outgoing().at(y) is Some {
                    let iy = (old(self).spec_outgoing().at(y)->Some_0).0 as int;
                    assert(old(self).spec_incoming().has(iy));
                    assert(old(self).spec_incoming().at(iy).spec_outgoing_token().0 as int == y);
                    if iy == token.0 as int {
                        assert(old(self).pair_ok(iy));
                        assert(false);
                    }
                    assert(self.spec_incoming().entry(iy) == old(self).spec_incoming().entry(iy));
                }
            }
            assert(self.wf());
        }
        c
    }

    /// Decide the fate of a pair after its event was fed in and its tick
    /// ran: with no progress and either half closed, the pair is
    /// destroyed and handed back (both slots freed); otherwise it is
    /// recorded for interest re-arming. An unknown token is ignored.
    pub fn settle_incoming_event(&mut self, token: IncomingToken, progress: bool) -> (r: Option<
        Connection<S>,
    >)
        requires
            old(self).wf(),
        ensures
            final(self).wf(),
            final(self).spec_state() == old(self).spec_state(),
            !old(self).spec_incoming().has(token.0 as int) ==> *final(self) == *old(self) && r
                is None,
            old(self).spec_incoming().has(token.0 as int) ==> {
                let c = old(self).spec_incoming().at(token.0 as int);
                let gone = !progress && (c.spec_incoming_closed() || c.spec_outgoing_closed());
                if gone {
                    &&& r == Some(c)
                    &&& !final(self).spec_incoming().has(token.0 as int)
                    &&& !final(self).spec_outgoing().has(c.spec_outgoing_token().0 as int)
                    &&& forall|x: int|
                        x != token.0 as int ==> final(self).spec_incoming().entry(x) == old(self).spec_incoming().entry(x)
                    &&& forall|y: int|
                        y != c.spec_outgoing_token().0 as int ==> final(self).spec_outgoing().entry(y) == old(self).spec_outgoing().entry(y)
                    &&& final(self).spec_incoming().spec_count() == old(self).spec_incoming().spec_count() - 1
                    &&& final(self).spec_outgoing().spec_count() == old(self).spec_outgoing().spec_count() - 1
                    &&& final(self).spec_reregister() == old(self).spec_reregister()
                } else {
                    &&& r is None
                    &&& final(self).spec_incoming() == old(self).spec_incoming()
                    &&& final(self).spec_outgoing() == old(self).spec_outgoing()
                    &&& final(self).spec_reregister() == if old(self).spec_reregister().contains(
                        token,
                    ) {
                        old(self).spec_reregister()
                    } else {
                        old(self).spec_reregister().push(token)
                    }
                }
            },
    {
        let closed = match self.incoming_connections.get(token.0) {
            None => {
                return None;
            },
            Some(c) => c.is_incoming_closed() || c.is_outgoing_closed(),
        };
        if !progress && closed {
            Some(self.remove_connection(token))
        } else {
            self.mark_reregister(token);
            None
        }
    }

    /// Decide the fate of a pair after an event on its outgoing half.
    /// The slot is resolved through the reverse mapping first; an unknown
    /// or released slot is ignored.
    pub fn settle_outgoing_event(&mut self, token: OutgoingToken, progress: bool) -> (r: Option<
        Connection<S>,
    >)
        requires
            old(self).wf(),
        ensures
            final(self).wf(),
            final(self).spec_state() == old(self).spec_state(),
            (!old(self).spec_outgoing().has(token.0 as int) || old(self).spec_outgoing().at(
                token.0 as int,
            ) is None) ==> *final(self) == *old(self) && r is None,
            (old(self).spec_outgoing().has(token.0 as int) && old(self).spec_outgoing().at(
                token.0 as int,
            ) is Some) ==> {
                let it = old(self).spec_outgoing().at(token.0 as int)->Some_0;
                let c = old(self).spec_incoming().at(it.0 as int);
                let gone = !progress && (c.spec_incoming_closed() || c.spec_outgoing_closed());
                &&& old(self).spec_incoming().has(it.0 as int)
                &&& if gone {
                    &&& r == Some(c)
                    &&& !final(self).spec_incoming().has(it.0 as int)
                    &&& !final(self).spec_outgoing().has(token.0 as int)
                    &&& forall|x: int|
                        x != it.0 as int ==> final(self).spec_incoming().entry(x) == old(self).spec_incoming().entry(x)
                    &&& forall|y: int|
                        y != token.0 as int ==> final(self).spec_outgoing().entry(y) == old(self).spec_outgoing().entry(y)
                    &&& final(self).spec_incoming().spec_count() == old(self).spec_incoming().spec_count() - 1
                    &&& final(self).spec_outgoing().spec_count() == old(self).spec_outgoing().spec_count() - 1
                    &&& final(self).spec_reregister() == old(self).spec_reregister()
                } else {
                    &&& r is None
                    &&& final(self).spec_incoming() == old(self).spec_incoming()
                    &&& final(self).spec_outgoing() == old(self).spec_outgoing()
                    &&& final(self).spec_reregister() == if old(self).spec_reregister().contains(
                        it,
                    ) {
                        old(self).spec_reregister()
                    } else {
                        old(self).spec_reregister().push(it)
                    }
                }
            },
    {
        let it = match self.lookup_by_outgoing(token) {
            None => {
                return None;
            },
            Some(it) => it,
        };
        proof {
            assert(old(self).rev_ok(token.0 as int));
            assert(old(self).spec_incoming().has(it.0 as int));
            assert(old(self).spec_incoming().at(it.0 as int).spec_outgoing_token().0 as int
                == token.0 as int);
            assert(old(self).pair_ok(it.0 as int));
        }
        let closed = match self.incoming_connections.get(it.0) {
            None => {
                proof {
                    assert(false);
                }
                return None;
            },
            Some(c) => c.is_incoming_closed() || c.is_outgoing_closed(),
        };
        if !progress && closed {
            let c = self.remove_connection(it);
            proof {
                assert(c.spec_outgoing_token() == token);
            }
            Some(c)
        } else {
            self.mark_reregister(it);
            None
        }
    }

    /// Record an incoming slot as needing its poller interest re-armed,
    /// once.
    fn mark_reregister(&mut self, token: IncomingToken)
        ensures
            final(self).spec_reregister() == if old(self).spec_reregister().contains(token) {
                old(self).spec_reregister()
            } else {
                old(self).spec_reregister().push(token)
            },
            final(self).spec_incoming() == old(self).spec_incoming(),
            final(self).spec_outgoing() == old(self).spec_outgoing(),
            final(self).spec_state() == old(self).spec_state(),
            old(self).wf() ==> final(self).wf(),
    {
        let mut k: usize = 0;
        let n = self.to_reregister.len();
        while k < n
            invariant
                n == self.to_reregister@.len(),
                k <= n,
                forall|x: int| 0 <= x < k ==> self.to_reregister@[x] != token,
            decreases n - k,
        {
            if self.to_reregister[k] == token {
                proof {
                    assert(self.to_reregister@[k as int] == token);
                    assert(self.to_reregister@.contains(token));
                }
                return ;
            }
            k += 1;
        }
        proof {
            if self.to_reregister@.contains(token) {
                let x = choose|x: int|
                    0 <= x < self.to_reregister@.len() && self.to_reregister@[x] == token;
                assert(false);
            }
        }
        self.to_reregister.push(token);
    }

    /// Hand over the set of connections to re-arm and clear it, for the
    /// post-batch bookkeeping step.
    pub fn take_reregister_list(&mut self) -> (r: Vec<IncomingToken>)
        ensures
            r@ == old(self).spec_reregister(),
            final(self).spec_reregister() == Seq::<IncomingToken>::empty(),
            final(self).spec_incoming() == old(self).spec_incoming(),
            final(self).spec_outgoing() == old(self).spec_outgoing(),
            final(self).spec_state() == old(self).spec_state(),
            old(self).wf() ==> final(self).wf(),
    {
        let mut out: Vec<IncomingToken> = Vec::new();
        core::mem::swap(&mut out, &mut self.to_reregister);
        out
    }

    /// How many paired connections are live, by their incoming slots.
    pub fn incoming_len(&self) -> (r: usize)
        ensures
            r == self.spec_incoming().spec_count(),
    {
        self.incoming_connections.len()
    }

    /// How many outgoing slots are occupied.
    pub fn outgoing_len(&self) -> (r: usize)
        ensures
            r == self.spec_outgoing().spec_count(),
    {
        self.outgoing_connections_token.len()
    }
}

/// Slot parity: for every paired connection the two tables point at each
/// other — the connection in incoming slot `i` names outgoing slot `o`
/// exactly when the outgoing table's slot `o` holds `Some(i)`.
pub proof fn lemma_slot_parity<L, S>(d: Driver<L, S>, i: int, o: int)
    requires
        d.wf(),
    ensures
        d.spec_incoming().has(i) ==> {
            let oi = d.spec_incoming().at(i).spec_outgoing_token().0 as int;
            d.spec_outgoing().has(oi) && d.spec_outgoing().at(oi) == Some(
                IncomingToken(i as usize),
            )
        },
        d.spec_outgoing().has(o) && d.spec_outgoing().at(o) is Some ==> {
            let io = (d.spec_outgoing().at(o)->Some_0).0 as int;
            d.spec_incoming().has(io) && d.spec_incoming().at(io).spec_outgoing_token().0 as int
                == o
        },
{
    if d.spec_incoming().has(i) {
        assert(d.pair_ok(i));
    }
    if d.spec_outgoing().has(o) {
        assert(d.rev_ok(o));
    }
}

} // verus!
