use vstd::prelude::*;

use crate::addr::Addr;
use crate::backend::Backend;
use crate::config::{copy_addrs, BufferConfig, ResolvedConfig};
use crate::connection::ListenerToken;
use crate::error::Error;
use crate::frontend::Frontend;
use crate::slab::Slab;

verus! {

broadcast use crate::slab::lemma_has_in_range, crate::slab::lemma_bounds_nonneg, crate::slab::lemma_count_bounds;

/// One of the first `bound` tokens of `rm` names slot `s`.
pub open spec fn token_before(rm: Seq<ListenerToken>, bound: int, s: int) -> bool {
    exists|j: int| 0 <= j < bound && (#[trigger] rm[j].0) as int == s
}

/// A bound listening socket with its address, its frontend binding and
/// its own token. The socket type is opaque to the state machine; the
/// embedding program owns the actual binding and registration.
pub struct Listener<L> {
    pub listener: L,
    pub listen_addr: Addr,
    pub frontend: Frontend,
    pub token: ListenerToken,
}

/// The listener registry, the set of listeners whose removal is pending
/// until the next tick boundary, the live backend routers, and the table
/// capacities fixed at startup.
pub struct DriverState<L> {
    pub listeners: Slab<Listener<L>>,
    pub listeners_to_remove: Vec<ListenerToken>,
    pub backends: Vec<Backend>,
    pub buffers: BufferConfig,
}

impl<L> DriverState<L> {
    /// The listener in slot `s` is coherent: it knows its own token, its
    /// frontend points back at its address, and the frontend is well
    /// formed.
    pub open spec fn listener_ok(self, s: int) -> bool {
        &&& self.listeners.at(s).token.0 == s
        &&& self.listeners.at(s).frontend.wf()
        &&& self.listeners.at(s).frontend.addr() == self.listeners.at(s).listen_addr
    }

    /// Slot `s` is marked for removal at the next tick boundary.
    pub open spec fn marked(self, s: int) -> bool {
        token_before(self.listeners_to_remove@, self.listeners_to_remove@.len() as int, s)
    }

    /// The backend indices of the listener in slot `s` point into the
    /// backend table.
    pub open spec fn listener_backends_ok(self, s: int) -> bool {
        forall|b: int|
            0 <= b < self.listeners.at(s).frontend.backend_list().len()
                ==> (#[trigger] self.listeners.at(s).frontend.backend_list()[b] as int)
                < self.backends@.len()
    }

    pub open spec fn wf(self) -> bool {
        &&& self.listeners.inv()
        &&& self.listeners.start() == 1
        &&& forall|s: int| #[trigger] self.listeners.has(s) ==> self.listener_ok(s)
        &&& forall|s: int|
            #[trigger] self.listeners.has(s) && !self.marked(s) ==> self.listener_backends_ok(s)
        &&& forall|s1: int, s2: int|
            self.listeners.has(s1) && self.listeners.has(s2) && s1 != s2
                ==> #[trigger] self.listeners.at(s1).listen_addr != #[trigger] self.listeners.at(
                s2,
            ).listen_addr
        &&& forall|b: int| 0 <= b < self.backends@.len() ==> (#[trigger] self.backends@[b]).wf()
    }

    /// Some listener listens on `a`.
    pub open spec fn spec_has_listener_addr(self, a: Addr) -> bool {
        exists|s: int| #[trigger] self.listeners.has(s) && self.listeners.at(s).listen_addr == a
    }

    /// An empty registry with room for `buffers.listeners` listeners,
    /// slots starting at 1 so that slot 0 stays the sentinel.
    pub fn new(buffers: &BufferConfig) -> (d: DriverState<L>)
        requires
            buffers.listeners < usize::MAX,
        ensures
            d.wf(),
            d.listeners.spec_count() == 0,
            d.listeners.capacity() == buffers.listeners,
            d.listeners.start() == 1,
            forall|s: int| !d.listeners.has(s),
            d.listeners_to_remove@.len() == 0,
            d.backends@.len() == 0,
            d.buffers == *buffers,
    {
        DriverState {
            listeners: Slab::new(1, buffers.listeners),
            listeners_to_remove: Vec::new(),
            backends: Vec::new(),
            buffers: *buffers,
        }
    }

    /// Whether any current listener listens on `a`.
    pub fn has_listener_addr(&self, a: Addr) -> (r: bool)
        requires
            self.listeners.inv(),
        ensures
            r == self.spec_has_listener_addr(a),
    {
        let end = self.listeners.end_slot();
        let mut s: usize = self.listeners.start_slot();
        while s < end
            invariant
                self.listeners.inv(),
                self.listeners.start() <= s as int <= end,
                end == self.listeners.start() + self.listeners.capacity(),
                forall|t: int|
                    self.listeners.start() <= t < s as int ==> !(#[trigger] self.listeners.has(t)
                        && self.listeners.at(t).listen_addr == a),
            decreases end - s,
        {
            match self.listeners.get(s) {
                Some(l) => {
                    if l.listen_addr == a {
                        return true;
                    }
                },
                None => {},
            }
            s += 1;
        }
        proof {
            assert forall|t: int| !(#[trigger] self.listeners.has(t) && self.listeners.at(
                t,
            ).listen_addr == a) by {
                if self.listeners.has(t) {
                    assert(self.listeners.start() <= t < self.listeners.start()
                        + self.listeners.capacity());
                }
            }
        }
        false
    }

    /// Choose the upstream target for a new connection accepted on the
    /// given listener: ask the listener's frontend for its backend and
    /// advance that backend's round-robin cursor. `None` when the token
    /// names no listener, or the listener is pending removal and its
    /// binding no longer points into the backend table.
    pub fn decide_target(&mut self, token: ListenerToken) -> (r: Option<Addr>)
        requires
            old(self).wf(),
        ensures
            final(self).wf(),
            final(self).listeners == old(self).listeners,
            final(self).listeners_to_remove == old(self).listeners_to_remove,
            final(self).buffers == old(self).buffers,
            final(self).backends@.len() == old(self).backends@.len(),
            match r {
                None => final(self).backends == old(self).backends && (!old(self).listeners.has(
                    token.0 as int,
                ) || (old(self).listeners.at(token.0 as int).frontend.backend_list()[0] as int)
                    >= old(self).backends@.len()),
                Some(a) => {
                    let j = old(self).listeners.at(token.0 as int).frontend.backend_list()[
                        0] as int;
                    &&& old(self).listeners.has(token.0 as int)
                    &&& 0 <= j < old(self).backends@.len()
                    &&& a == old(self).backends@[j].targets_seq()[old(self).backends@[j].cursor()]
                    &&& final(self).backends@[j].targets_seq() == old(
                        self,
                    ).backends@[j].targets_seq()
                    &&& final(self).backends@[j].cursor() == (old(self).backends@[j].cursor() + 1)
                        % (old(self).backends@[j].targets_seq().len() as int)
                    &&& forall|b: int|
                        0 <= b < old(self).backends@.len() && b != j ==> final(self).backends@[b]
                            == old(self).backends@[b]
                },
            },
    {
        let j_opt: Option<usize> = match self.listeners.get(token.0) {
            Some(l) => Some(l.frontend.decide_backend()),
            None => None,
        };
        match j_opt {
            None => None,
            Some(j) => {
                if j >= self.backends.len() {
                    return None;
                }
                let a = self.backends[j].decide_target();
                proof {
                    assert forall|b: int|
                        0 <= b < self.backends@.len() implies (#[trigger] self.backends@[b]).wf() by {
                        if b != j as int {
                            assert(self.backends@[b] == old(self).backends@[b]);
                        }
                    }
                    assert forall|s: int| #[trigger] self.listeners.has(s) implies self.listener_ok(
                        s,
                    ) by {
                        assert(old(self).listeners.has(s));
                        assert(old(self).listener_ok(s));
                    }
                    assert forall|s: int|
                        #[trigger] self.listeners.has(s) && !self.marked(s)
                        implies self.listener_backends_ok(s) by {
                        assert(old(self).listeners.has(s));
                        if old(self).marked(s) {
                            let kk = choose|kk: int|
                                0 <= kk < old(self).listeners_to_remove@.len() && (#[trigger] old(
                                    self,
                                ).listeners_to_remove@[kk].0) as int == s;
                            assert((self.listeners_to_remove@[kk].0 as int) == s);
                            assert(self.marked(s));
                        }
                        assert(old(self).listener_backends_ok(s));
                    }
                    assert forall|t1: int, t2: int|
                        self.listeners.has(t1) && self.listeners.has(t2) && t1 != t2 implies (
                    #[trigger] self.listeners.at(t1).listen_addr) != (#[trigger] self.listeners.at(
                        t2,
                    ).listen_addr) by {
                        assert(old(self).listeners.has(t1) && old(self).listeners.has(t2));
                    }
                    assert(self.wf());
                }
                Some(a)
            },
        }
    }

    /// Apply a new configuration to the running registry: rebuild the
    /// backend table, rebind in place every current listener whose
    /// address the new configuration keeps, mark every other current
    /// listener for removal at the next tick boundary, and hand back the
    /// frontends that still need a freshly bound socket, one per desired
    /// address that had no current listener. No socket is touched here.
    #[verifier::rlimit(100)]
    pub fn reconfigure(&mut self, cfg: &ResolvedConfig) -> (to_bind: Vec<Frontend>)
        requires
            old(self).wf(),
            cfg.wf(),
            old(self).listeners_to_remove@.len() == 0,
        ensures
            final(self).wf(),
            final(self).buffers == old(self).buffers,
            // the backend table is rebuilt from the configuration
            final(self).backends@.len() == cfg.backends@.len(),
            forall|b: int|
                0 <= b < cfg.backends@.len() ==> {
                    let nb = #[trigger] final(self).backends@[b];
                    nb.targets_seq() == cfg.backends@[b]@ && nb.cursor() == 0
                },
            // listener slots, sockets, addresses and tokens are untouched
            final(self).listeners.start() == old(self).listeners.start(),
            final(self).listeners.capacity() == old(self).listeners.capacity(),
            final(self).listeners.spec_count() == old(self).listeners.spec_count(),
            forall|s: int| final(self).listeners.has(s) == old(self).listeners.has(s),
            forall|s: int|
                old(self).listeners.has(s) ==> {
                    let pre = old(self).listeners.at(s);
                    let post = final(self).listeners.at(s);
                    &&& post.listener == pre.listener
                    &&& post.listen_addr == pre.listen_addr
                    &&& post.token == pre.token
                },
            // every kept address is rebound in place to the new backend
            forall|s: int|
                old(self).listeners.has(s) && cfg.has_addr(
                    old(self).listeners.at(s).listen_addr,
                ) ==> {
                    let post = final(self).listeners.at(s);
                    &&& post.frontend.addr() == post.listen_addr
                    &&& post.frontend.backend_list() =~= seq![
                        cfg.addr_backend(post.listen_addr) as usize,
                    ]
                },
            forall|s: int|
                old(self).listeners.has(s) && !cfg.has_addr(
                    old(self).listeners.at(s).listen_addr,
                ) ==> final(self).listeners.at(s).frontend == old(self).listeners.at(s).frontend,
            // exactly the no-longer-desired listeners are marked
            forall|s: int|
                final(self).marked(s) <==> (old(self).listeners.has(s) && !cfg.has_addr(
                    old(self).listeners.at(s).listen_addr,
                )),
            // one frontend to bind per desired address without a listener
            forall|i: int|
                0 <= i < to_bind@.len() ==> {
                    let f = #[trigger] to_bind@[i];
                    &&& f.wf()
                    &&& cfg.has_addr(f.addr())
                    &&& f.backend_list() =~= seq![cfg.addr_backend(f.addr()) as usize]
                    &&& !old(self).spec_has_listener_addr(f.addr())
                },
            forall|i: int, j: int|
                0 <= i < j < to_bind@.len() ==> to_bind@[i].addr() != to_bind@[j].addr(),
            forall|i: int|
                0 <= i < cfg.frontends@.len() ==> (old(self).spec_has_listener_addr(
                    #[trigger] cfg.frontends@[i].0,
                ) || exists|k: int|
                    0 <= k < to_bind@.len() && (#[trigger] to_bind@[k].addr())
                        == cfg.frontends@[i].0),
    {
        let ghost pre = *old(self);
        // 1. fresh routers, cursors at the start
        let mut nb: Vec<Backend> = Vec::new();
        let mut b: usize = 0;
        while b < cfg.backends.len()
            invariant
                cfg.wf(),
                b <= cfg.backends@.len(),
                nb@.len() == b,
                forall|i: int|
                    0 <= i < b ==> (#[trigger] nb@[i]).targets_seq() == cfg.backends@[i]@
                        && nb@[i].cursor() == 0 && nb@[i].wf(),
            decreases cfg.backends@.len() - b,
        {
            let targets = copy_addrs(&cfg.backends[b]);
            nb.push(Backend::new(targets));
            b += 1;
        }
        self.backends = nb;
        // 2. walk the current listeners: rebind kept addresses, mark the rest
        let end = self.listeners.end_slot();
        let start = self.listeners.start_slot();
        let mut s: usize = start;
        while s < end
            invariant
                cfg.wf(),
                pre.wf(),
                self.buffers == pre.buffers,
                self.backends@.len() == cfg.backends@.len(),
                forall|i: int|
                    0 <= i < cfg.backends@.len() ==> (#[trigger] self.backends@[i]).targets_seq()
                        == cfg.backends@[i]@ && self.backends@[i].cursor() == 0
                        && self.backends@[i].wf(),
                start == pre.listeners.start(),
                end == pre.listeners.start() + pre.listeners.capacity(),
                start <= s as int <= end,
                self.listeners.inv(),
                self.listeners.start() == pre.listeners.start(),
                self.listeners.capacity() == pre.listeners.capacity(),
                self.listeners.spec_count() == pre.listeners.spec_count(),
                forall|t: int| self.listeners.has(t) == pre.listeners.has(t),
                forall|t: int|
                    pre.listeners.has(t) ==> {
                        let a = self.listeners.at(t);
                        let o = pre.listeners.at(t);
                        a.listener == o.listener && a.listen_addr == o.listen_addr && a.token
                            == o.token
                    },
                forall|t: int|
                    pre.listeners.has(t) && !(t < s as int) ==> #[trigger] self.listeners.at(t)
                        == pre.listeners.at(t),
                forall|t: int|
                    pre.listeners.has(t) && t < s as int && cfg.has_addr(
                        pre.listeners.at(t).listen_addr,
                    ) ==> {
                        let post = #[trigger] self.listeners.at(t);
                        &&& post.frontend.addr() == post.listen_addr
                        &&& post.frontend.backend_list() =~= seq![
                            cfg.addr_backend(post.listen_addr) as usize,
                        ]
                    },
                forall|t: int|
                    pre.listeners.has(t) && t < s as int && !cfg.has_addr(
                        pre.listeners.at(t).listen_addr,
                    ) ==> #[trigger] self.listeners.at(t).frontend == pre.listeners.at(t).frontend,
                forall|t: int|
                    #![trigger pre.listeners.at(t)]
                    self.marked(t) <==> (pre.listeners.has(t) && t < s as int && !cfg.has_addr(
                        pre.listeners.at(t).listen_addr,
                    )),
            decreases end - s,
        {
            let info: Option<Addr> = match self.listeners.get(s) {
                Some(l) => Some(l.listen_addr),
                None => None,
            };
            match info {
                None => {},
                Some(a) => {
                    match find_cfg_addr(cfg, a) {
                        Some(i) => {
                            proof {
                                cfg.lemma_addr_slot_unique(a, i as int);
                            }
                            let j = cfg.frontends[i].1;
                            let mut bl: Vec<usize> = Vec::new();
                            bl.push(j);
                            let nf = Frontend::new(a, bl);
                            let ghost pre_slab = self.listeners;
                            match self.listeners.get_mut(s) {
                                Some(l) => {
                                    l.frontend = nf;
                                },
                                None => {},
                            }
                            proof {
                                Slab::lemma_inv_after_value_update(
                                    pre_slab,
                                    self.listeners,
                                    s as int,
                                );
                                assert(self.listeners.at(s as int).frontend.backend_list() =~= seq![
                                    cfg.addr_backend(a) as usize,
                                ]);
                            }
                        },
                        None => {
                            let ghost old_rm = self.listeners_to_remove@;
                            self.listeners_to_remove.push(ListenerToken(s));
                            proof {
                                assert forall|t: int|
                                    self.marked(t) <==> (pre.listeners.has(t) && t < s as int + 1
                                        && !cfg.has_addr(pre.listeners.at(t).listen_addr)) by {
                                    if self.marked(t) {
                                        let j = choose|j: int|
                                            0 <= j < self.listeners_to_remove@.len() && (
                                            #[trigger] self.listeners_to_remove@[j].0) as int == t;
                                        if j < old_rm.len() {
                                            assert((old_rm[j].0) as int == t);
                                            assert(token_before(old_rm, old_rm.len() as int, t));
                                        } else {
                                            assert(t == s as int);
                                        }
                                    }
                                    if pre.listeners.has(t) && t < s as int + 1 && !cfg.has_addr(
                                        pre.listeners.at(t).listen_addr,
                                    ) {
                                        if t < s as int {
                                            let j = choose|j: int|
                                                0 <= j < old_rm.len() && (#[trigger] old_rm[j].0)
                                                    as int == t;
                                            assert((self.listeners_to_remove@[j].0) as int == t);
                                        } else {
                                            assert((self.listeners_to_remove@[old_rm.len() as int].0)
                                                as int == t);
                                        }
                                        assert(token_before(
                                            self.listeners_to_remove@,
                                            self.listeners_to_remove@.len() as int,
                                            t,
                                        ));
                                    }
                                }
                            }
                        },
                    }
                },
            }
            s += 1;
        }
        // 3. the desired addresses that no current listener serves
        let mut to_bind: Vec<Frontend> = Vec::new();
        let mut fi: usize = 0;
        while fi < cfg.frontends.len()
            invariant
                cfg.wf(),
                pre.wf(),
                pre.listeners.inv(),
                fi <= cfg.frontends@.len(),
                forall|t: int| self.listeners.has(t) == pre.listeners.has(t),
                forall|t: int|
                    pre.listeners.has(t) ==> #[trigger] self.listeners.at(t).listen_addr
                        == pre.listeners.at(t).listen_addr,
                self.listeners.inv(),
                forall|i: int|
                    0 <= i < to_bind@.len() ==> {
                        let f = #[trigger] to_bind@[i];
                        &&& f.wf()
                        &&& cfg.has_addr(f.addr())
                        &&& f.backend_list() =~= seq![cfg.addr_backend(f.addr()) as usize]
                        &&& !pre.spec_has_listener_addr(f.addr())
                        &&& exists|k: int|
                            0 <= k < fi && (#[trigger] cfg.frontends@[k].0) == f.addr()
                    },
                forall|i: int, j: int|
                    0 <= i < j < to_bind@.len() ==> to_bind@[i].addr() != to_bind@[j].addr(),
                forall|i: int|
                    0 <= i < fi ==> (pre.spec_has_listener_addr(#[trigger] cfg.frontends@[i].0)
                        || exists|k: int|
                        0 <= k < to_bind@.len() && (#[trigger] to_bind@[k].addr())
                            == cfg.frontends@[i].0),
            decreases cfg.frontends@.len() - fi,
        {
            let a = cfg.frontends[fi].0;
            let j = cfg.frontends[fi].1;
            proof {
                cfg.lemma_addr_slot_unique(a, fi as int);
            }
            let ghost old_tb = to_bind@;
            if !self.has_listener_addr(a) {
                let mut bl: Vec<usize> = Vec::new();
                bl.push(j);
                let nf = Frontend::new(a, bl);
                proof {
                    assert(nf.backend_list() =~= seq![cfg.addr_backend(a) as usize]);
                    assert forall|i: int|
                        0 <= i < to_bind@.len() implies #[trigger] to_bind@[i].addr() != a by {
                        let k = choose|k: int|
                            0 <= k < fi && (#[trigger] cfg.frontends@[k].0) == to_bind@[i].addr();
                        if to_bind@[i].addr() == a {
                            assert(cfg.frontends@[k].0 == cfg.frontends@[fi as int].0);
                        }
                    }
                }
                to_bind.push(nf);
                proof {
                    assert(to_bind@[old_tb.len() as int].addr() == a);
                }
            } else {
                proof {
                    let w = choose|t: int|
                        #[trigger] self.listeners.has(t) && self.listeners.at(t).listen_addr == a;
                    assert(pre.listeners.has(w) && pre.listeners.at(w).listen_addr == a);
                    assert(pre.spec_has_listener_addr(a));
                }
            }
            proof {
                assert forall|i: int|
                    0 <= i < fi + 1 implies (pre.spec_has_listener_addr(
                    #[trigger] cfg.frontends@[i].0,
                ) || exists|k: int|
                    0 <= k < to_bind@.len() && (#[trigger] to_bind@[k].addr())
                        == cfg.frontends@[i].0) by {
                    if i == fi as int {
                        if !pre.spec_has_listener_addr(cfg.frontends@[i].0) {
                            assert(to_bind@[old_tb.len() as int].addr() == cfg.frontends@[i].0);
                        }
                    } else if !pre.spec_has_listener_addr(cfg.frontends@[i].0) {
                        let k = choose|k: int|
                            0 <= k < old_tb.len() && (#[trigger] old_tb[k].addr())
                                == cfg.frontends@[i].0;
                        assert(to_bind@[k].addr() == cfg.frontends@[i].0);
                    }
                }
            }
            fi += 1;
        }
        proof {
            assert forall|s: int| #[trigger] self.listeners.has(s) implies self.listener_ok(s) by {
                assert(pre.listeners.has(s));
                assert(pre.listener_ok(s));
            }
            assert forall|s: int|
                #[trigger] self.listeners.has(s) && !self.marked(s)
                implies self.listener_backends_ok(s) by {
                assert(pre.listeners.has(s));
                let a = pre.listeners.at(s).listen_addr;
                assert(cfg.has_addr(a));
                let sl = cfg.addr_slot(a);
                assert(0 <= sl < cfg.frontends@.len() && cfg.frontends@[sl].0 == a);
                assert((cfg.frontends@[sl].1 as int) < cfg.backends@.len());
                assert(self.listeners.at(s).listen_addr == a);
                assert(self.listeners.at(s).frontend.backend_list() =~= seq![
                    cfg.addr_backend(a) as usize,
                ]);
            }
            assert forall|t1: int, t2: int|
                self.listeners.has(t1) && self.listeners.has(t2) && t1 != t2 implies (
            #[trigger] self.listeners.at(t1).listen_addr) != (#[trigger] self.listeners.at(
                t2,
            ).listen_addr) by {
                assert(pre.listeners.has(t1) && pre.listeners.has(t2));
                assert(self.listeners.at(t1).listen_addr == pre.listeners.at(t1).listen_addr);
                assert(self.listeners.at(t2).listen_addr == pre.listeners.at(t2).listen_addr);
                assert(pre.listeners.at(t1).listen_addr != pre.listeners.at(t2).listen_addr);
            }
            assert(self.wf());
        }
        to_bind
    }

    /// Register a freshly bound socket for one of the frontends that
    /// `reconfigure` asked to bind. Fails with `SlabFull` when the
    /// listener table is at capacity, and with `InvariantViolation` when
    /// a listener for that address already exists.
    pub fn add_listener(&mut self, listener: L, frontend: Frontend) -> (r: Result<
        ListenerToken,
        Error,
    >)
        requires
            old(self).wf(),
            frontend.wf(),
            forall|b: int|
                0 <= b < frontend.backend_list().len()
                    ==> (#[trigger] frontend.backend_list()[b] as int) < old(self).backends@.len(),
        ensures
            final(self).wf(),
            final(self).backends == old(self).backends,
            final(self).buffers == old(self).buffers,
            final(self).listeners_to_remove == old(self).listeners_to_remove,
            final(self).listeners.start() == old(self).listeners.start(),
            final(self).listeners.capacity() == old(self).listeners.capacity(),
            match r {
                Ok(t) => {
                    &&& !old(self).spec_has_listener_addr(frontend.addr())
                    &&& old(self).listeners.spec_count() < old(self).listeners.capacity()
                    &&& !old(self).listeners.has(t.0 as int)
                    &&& final(self).listeners.has(t.0 as int)
                    &&& final(self).listeners.at(t.0 as int) == (Listener {
                        listener,
                        listen_addr: frontend.addr(),
                        frontend,
                        token: t,
                    })
                    &&& forall|i: int|
                        i != t.0 as int ==> final(self).listeners.entry(i) == old(
                            self,
                        ).listeners.entry(i)
                    &&& final(self).listeners.spec_count() == old(self).listeners.spec_count() + 1
                },
                Err(e) => {
                    &&& *final(self) == *old(self)
                    &&& (e == Error::SlabFull || e == Error::InvariantViolation)
                    &&& (e == Error::SlabFull ==> old(self).listeners.spec_count() == old(
                        self,
                    ).listeners.capacity())
                    &&& (e == Error::InvariantViolation ==> old(self).spec_has_listener_addr(
                        frontend.addr(),
                    ))
                },
            },
    {
        let addr = frontend.listen_addr();
        if self.has_listener_addr(addr) {
            return Err(Error::InvariantViolation);
        }
        match self.listeners.peek_vacant() {
            None => Err(Error::SlabFull),
            Some(s) => {
                let token = ListenerToken(s);
                let entry = Listener { listener, listen_addr: addr, frontend, token };
                match self.listeners.insert(entry) {
                    Ok(s2) => {
                        proof {
                            if s2 != s {
                                if (s2 as int) < s as int {
                                    assert(old(self).listeners.has(s2 as int));
                                } else {
                                    assert(old(self).listeners.has(s as int));
                                }
                                assert(false);
                            }
                            assert forall|t1: int, t2: int|
                                self.listeners.has(t1) && self.listeners.has(t2) && t1 != t2
                                implies (#[trigger] self.listeners.at(t1).listen_addr)
                                != (#[trigger] self.listeners.at(t2).listen_addr) by {
                                if t1 != s as int && t2 != s as int {
                                    assert(self.listeners.entry(t1) == old(self).listeners.entry(
                                        t1,
                                    ));
                                    assert(self.listeners.entry(t2) == old(self).listeners.entry(
                                        t2,
                                    ));
                                    assert(old(self).listeners.has(t1) && old(
                                        self,
                                    ).listeners.has(t2));
                                    assert(self.listeners.at(t1) == old(self).listeners.at(t1));
                                    assert(self.listeners.at(t2) == old(self).listeners.at(t2));
                                } else if t1 == s as int {
                                    assert(self.listeners.entry(t2) == old(self).listeners.entry(
                                        t2,
                                    ));
                                    assert(old(self).listeners.has(t2));
                                    assert(self.listeners.at(t2) == old(self).listeners.at(t2));
                                    assert(!(old(self).listeners.has(t2) && old(
                                        self,
                                    ).listeners.at(t2).listen_addr == frontend.addr()));
                                    assert(self.listeners.at(t1).listen_addr == frontend.addr());
                                } else {
                                    assert(self.listeners.entry(t1) == old(self).listeners.entry(
                                        t1,
                                    ));
                                    assert(old(self).listeners.has(t1));
                                    assert(self.listeners.at(t1) == old(self).listeners.at(t1));
                                    assert(!(old(self).listeners.has(t1) && old(
                                        self,
                                    ).listeners.at(t1).listen_addr == frontend.addr()));
                                    assert(self.listeners.at(t2).listen_addr == frontend.addr());
                                }
                            }
                            assert forall|t: int| #[trigger] self.listeners.has(t)
                                implies self.listener_ok(t) by {
                                if t != s as int {
                                    assert(self.listeners.entry(t) == old(self).listeners.entry(
                                        t,
                                    ));
                                    assert(old(self).listeners.has(t));
                                    assert(old(self).listener_ok(t));
                                    assert(self.listeners.at(t) == old(self).listeners.at(t));
                                }
                            }
                            assert forall|t: int|
                                #[trigger] self.listeners.has(t) && !self.marked(t)
                                implies self.listener_backends_ok(t) by {
                                if t != s as int {
                                    assert(self.listeners.entry(t) == old(self).listeners.entry(
                                        t,
                                    ));
                                    assert(old(self).listeners.has(t));
                                    if old(self).marked(t) {
                                        let kk = choose|kk: int|
                                            0 <= kk < old(self).listeners_to_remove@.len() && (
                                            #[trigger] old(self).listeners_to_remove@[kk].0) as int
                                                == t;
                                        assert((self.listeners_to_remove@[kk].0 as int) == t);
                                        assert(self.marked(t));
                                    }
                                    assert(old(self).listener_backends_ok(t));
                                    assert(self.listeners.at(t) == old(self).listeners.at(t));
                                }
                            }
                            assert(self.wf());
                        }
                        Ok(token)
                    },
                    Err(_) => {
                        proof {
                            assert(false);
                        }
                        Err(Error::SlabFull)
                    },
                }
            },
        }
    }

    /// Carry out the removals a reconfiguration recorded: free every
    /// marked slot and hand the listeners back so the embedding program
    /// can deregister and drop their sockets. Clears the pending set.
    pub fn take_removed_listeners(&mut self) -> (removed: Vec<Listener<L>>)
        requires
            old(self).wf(),
        ensures
            final(self).wf(),
            final(self).backends == old(self).backends,
            final(self).buffers == old(self).buffers,
            final(self).listeners_to_remove@.len() == 0,
            final(self).listeners.start() == old(self).listeners.start(),
            final(self).listeners.capacity() == old(self).listeners.capacity(),
            forall|s: int|
                final(self).listeners.has(s) <==> (old(self).listeners.has(s) && !old(self).marked(
                    s,
                )),
            forall|s: int|
                final(self).listeners.has(s) ==> final(self).listeners.at(s) == old(
                    self,
                ).listeners.at(s),
            forall|i: int|
                0 <= i < removed@.len() ==> {
                    let l = #[trigger] removed@[i];
                    &&& old(self).listeners.has(l.token.0 as int)
                    &&& l == old(self).listeners.at(l.token.0 as int)
                    &&& old(self).marked(l.token.0 as int)
                },
            forall|s: int|
                old(self).listeners.has(s) && old(self).marked(s) ==> exists|i: int|
                    0 <= i < removed@.len() && (#[trigger] removed@[i].token.0) as int == s,
    {
        let ghost pre = *old(self);
        let mut removed: Vec<Listener<L>> = Vec::new();
        let mut k: usize = 0;
        while k < self.listeners_to_remove.len()
            invariant
                pre.wf(),
                k <= self.listeners_to_remove@.len(),
                self.listeners_to_remove == pre.listeners_to_remove,
                self.backends == pre.backends,
                self.buffers == pre.buffers,
                self.listeners.inv(),
                self.listeners.start() == pre.listeners.start(),
                self.listeners.capacity() == pre.listeners.capacity(),
                forall|s: int|
                    #![trigger pre.listeners.has(s)]
                    self.listeners.has(s) <==> (pre.listeners.has(s) && !token_before(
                        pre.listeners_to_remove@,
                        k as int,
                        s,
                    )),
                forall|s: int|
                    self.listeners.has(s) ==> #[trigger] self.listeners.at(s) == pre.listeners.at(
                        s,
                    ),
                forall|i: int|
                    0 <= i < removed@.len() ==> {
                        let l = #[trigger] removed@[i];
                        &&& pre.listeners.has(l.token.0 as int)
                        &&& l == pre.listeners.at(l.token.0 as int)
                        &&& pre.marked(l.token.0 as int)
                    },
                forall|s: int|
                    pre.listeners.has(s) && token_before(pre.listeners_to_remove@, k as int, s)
                        ==> exists|i: int|
                        0 <= i < removed@.len() && (#[trigger] removed@[i].token.0) as int == s,
            decreases self.listeners_to_remove@.len() - k,
        {
            let t = self.listeners_to_remove[k];
            let ghost k0 = k as int;
            let ghost pre_l = self.listeners;
            let ghost old_removed = removed@;
            let ghost rm = pre.listeners_to_remove@;
            proof {
                assert forall|s: int|
                    #![trigger pre_l.has(s)]
                    pre_l.has(s) <==> (pre.listeners.has(s) && !token_before(rm, k as int, s)) by {
                    // mention the term the loop invariant triggers on
                    // mention the term the loop invariant triggers on
                assert(pre.listeners.has(s) || !pre.listeners.has(s));
                }
                assert(rm[k as int] == t);
            }
            let r = self.listeners.remove(t.0);
            match r {
                Some(l) => {
                    proof {
                        assert(pre_l.has(t.0 as int));
                        assert(pre.listeners.has(t.0 as int));
                        assert(l == pre.listeners.at(t.0 as int));
                        assert(l.token.0 as int == t.0 as int);
                        assert((rm[k as int].0) as int == t.0 as int);
                        assert(token_before(rm, rm.len() as int, t.0 as int));
                        assert(pre.marked(t.0 as int));
                    }
                    removed.push(l);
                    proof {
                        assert(removed@[old_removed.len() as int].token.0 as int == t.0 as int);
                    }
                },
                None => {},
            }
            proof {
                assert forall|s: int|
                    #![trigger pre.listeners.has(s)]
                    self.listeners.has(s) <==> (pre.listeners.has(s) && !token_before(
                        pre.listeners_to_remove@,
                        k as int + 1,
                        s,
                    )) by {
                    if s == t.0 as int {
                        assert((rm[k as int].0) as int == s);
                        assert(token_before(rm, k as int + 1, s));
                        assert(!self.listeners.has(s));
                    } else {
                        assert(self.listeners.entry(s) == pre_l.entry(s));
                        if token_before(rm, k as int + 1, s) {
                            let j = choose|j: int|
                                0 <= j < k as int + 1 && (#[trigger] rm[j].0) as int == s;
                            assert(j != k as int);
                            assert(token_before(rm, k as int, s));
                        }
                        if token_before(rm, k as int, s) {
                            let j = choose|j: int| 0 <= j < k as int && (#[trigger] rm[j].0) as int
                                == s;
                            assert(token_before(rm, k as int + 1, s));
                        }
                        assert(pre_l.has(s) <==> self.listeners.has(s));
                    }
                }
                assert forall|s: int|
                    self.listeners.has(s) implies #[trigger] self.listeners.at(s)
                        == pre.listeners.at(s) by {
                    assert(s != t.0 as int);
                    assert(self.listeners.entry(s) == pre_l.entry(s));
                    assert(pre_l.has(s));
                    assert(pre_l.at(s) == pre.listeners.at(s));
                }
                assert forall|s: int|
                    pre.listeners.has(s) && token_before(rm, k as int + 1, s) implies exists|
                    i: int,
                |
                    0 <= i < removed@.len() && (#[trigger] removed@[i].token.0) as int == s by {
                    let j = choose|j: int| 0 <= j < k as int + 1 && (#[trigger] rm[j].0) as int
                        == s;
                    if j == k as int {
                        if pre_l.has(t.0 as int) {
                            assert(removed@[old_removed.len() as int].token.0 as int == s);
                        } else {
                            assert(token_before(rm, k as int, s));
                            let i = choose|i: int|
                                0 <= i < old_removed.len() && (#[trigger] old_removed[i].token.0)
                                    as int == s;
                            assert(removed@[i].token.0 as int == s);
                        }
                    } else {
                        assert(token_before(rm, k as int, s));
                        let i = choose|i: int|
                            0 <= i < old_removed.len() && (#[trigger] old_removed[i].token.0)
                                as int == s;
                        assert(removed@[i].token.0 as int == s);
                    }
                }
            }
            k += 1;
            proof {
                assert(k as int == k0 + 1);
                assert forall|s: int|
                    #![trigger pre.listeners.has(s)]
                    self.listeners.has(s) <==> (pre.listeners.has(s) && !token_before(
                        pre.listeners_to_remove@,
                        k as int,
                        s,
                    )) by {
                    assert(self.listeners.has(s) <==> (pre.listeners.has(s) && !token_before(
                        pre.listeners_to_remove@,
                        k0 + 1,
                        s,
                    )));
                    assert(token_before(pre.listeners_to_remove@, k as int, s) == token_before(
                        pre.listeners_to_remove@,
                        k0 + 1,
                        s,
                    ));
                }
                assert forall|s: int|
                    pre.listeners.has(s) && token_before(pre.listeners_to_remove@, k as int, s)
                    implies exists|i: int|
                    0 <= i < removed@.len() && (#[trigger] removed@[i].token.0) as int == s by {
                    assert(token_before(pre.listeners_to_remove@, k0 + 1, s));
                }
            }
        }
        proof {
            assert(k == pre.listeners_to_remove@.len());
        }
        self.listeners_to_remove = Vec::new();
        proof {
            assert forall|s: int|
                #[trigger] self.listeners.has(s) && !self.marked(s) implies self.listener_backends_ok(
                s,
            ) by {
                // mention the term the loop invariant triggers on
                assert(pre.listeners.has(s) || !pre.listeners.has(s));
                assert(!token_before(pre.listeners_to_remove@, k as int, s));
                assert(pre.listeners.has(s));
                if pre.marked(s) {
                    let kk = choose|kk: int|
                        0 <= kk < pre.listeners_to_remove@.len() && (#[trigger] pre.listeners_to_remove@[kk].0)
                            as int == s;
                    assert(token_before(pre.listeners_to_remove@, k as int, s));
                }
                assert(pre.listener_backends_ok(s));
                assert(self.listeners.at(s) == pre.listeners.at(s));
                assert forall|b: int|
                    0 <= b < self.listeners.at(s).frontend.backend_list().len() implies (
                #[trigger] self.listeners.at(s).frontend.backend_list()[b] as int)
                    < self.backends@.len() by {
                    assert((pre.listeners.at(s).frontend.backend_list()[b] as int)
                        < pre.backends@.len());
                }
            }
            assert forall|s: int| #[trigger] self.listeners.has(s) implies self.listener_ok(s) by {
                // mention the term the loop invariant triggers on
                assert(pre.listeners.has(s) || !pre.listeners.has(s));
                assert(pre.listeners.has(s));
                assert(pre.listener_ok(s));
                assert(self.listeners.at(s) == pre.listeners.at(s));
            }
            assert forall|t1: int, t2: int|
                self.listeners.has(t1) && self.listeners.has(t2) && t1 != t2 implies (
            #[trigger] self.listeners.at(t1).listen_addr) != (#[trigger] self.listeners.at(
                t2,
            ).listen_addr) by {
                assert(pre.listeners.has(t1) && pre.listeners.has(t2));
                assert(self.listeners.at(t1) == pre.listeners.at(t1));
                assert(self.listeners.at(t2) == pre.listeners.at(t2));
            }
            assert(self.wf());
        }
        removed

    }
}

/// The position of `a` among the configured frontends, if any.
fn find_cfg_addr(cfg: &ResolvedConfig, a: Addr) -> (r: Option<usize>)
    ensures
        match r {
            Some(i) => (i as int) < cfg.frontends@.len() && cfg.frontends@[i as int].0 == a,
            None => !cfg.has_addr(a),
        },
{
    let mut i: usize = 0;
    while i < cfg.frontends.len()
        invariant
            i <= cfg.frontends@.len(),
            forall|k: int| 0 <= k < i ==> (#[trigger] cfg.frontends@[k].0) != a,
        decreases cfg.frontends@.len() - i,
    {
        if cfg.frontends[i].0 == a {
            return Some(i);
        }
        i += 1;
    }
    None
}

} // verus!
