use vstd::prelude::*;

use crate::addr::Addr;
use crate::error::Error;

verus! {

/// One frontend entry of the configuration: where to listen and which
/// backend serves the connections.
pub struct FrontendConfig {
    pub listen_addr: String,
    pub backend: String,
}

/// One backend entry of the configuration: the upstream targets, as the
/// host:port strings the file gave.
pub struct BackendConfig {
    pub target_addrs: Vec<String>,
}

/// Capacities fixed at startup: how many concurrent connections and how
/// many listeners the tables hold.
#[derive(Debug, Copy, Clone, PartialEq, Eq, Structural)]
pub struct BufferConfig {
    pub connections: usize,
    pub listeners: usize,
}

impl Default for BufferConfig {
    fn default() -> (c: Self)
        ensures
            c.connections == 4096,
            c.listeners == 128,
    {
        BufferConfig { connections: 4096, listeners: 128 }
    }
}

/// The whole in-memory configuration, as an external parser hands it
/// over: named frontends, named backends, and the table capacities.
pub struct RootConfig {
    pub frontends: Vec<(String, FrontendConfig)>,
    pub backends: Vec<(String, BackendConfig)>,
    pub buffers: BufferConfig,
}

impl Default for RootConfig {
    fn default() -> (c: Self)
        ensures
            c.frontends@.len() == 0,
            c.backends@.len() == 0,
            c.buffers.connections == 4096,
            c.buffers.listeners == 128,
    {
        RootConfig { frontends: Vec::new(), backends: Vec::new(), buffers: Default::default() }
    }
}

/// One backend whose targets have been resolved to socket addresses by
/// the embedding program.
pub struct ResolvedBackend {
    pub name: String,
    pub targets: Vec<Addr>,
}

/// One frontend whose listen address has been resolved.
pub struct ResolvedFrontend {
    pub listen_addr: Addr,
    pub backend: String,
}

/// The configuration after name resolution and validation: each backend
/// as its non-empty target list, each frontend as its listen address and
/// the index of its backend. This is what a reconfiguration consumes.
pub struct ResolvedConfig {
    pub backends: Vec<Vec<Addr>>,
    pub frontends: Vec<(Addr, usize)>,
}

impl ResolvedConfig {
    /// Every backend has at least one target, every frontend points into
    /// the backend table, and no two frontends share a listen address.
    pub open spec fn wf(self) -> bool {
        &&& forall|i: int| 0 <= i < self.backends@.len() ==> self.backends@[i]@.len() >= 1
        &&& forall|i: int|
            0 <= i < self.frontends@.len() ==> (self.frontends@[i].1 as int)
                < self.backends@.len()
        &&& forall|i: int, j: int|
            0 <= i < j < self.frontends@.len() ==> self.frontends@[i].0 != self.frontends@[j].0
    }

    /// `a` is one of the configured listen addresses.
    pub open spec fn has_addr(self, a: Addr) -> bool {
        exists|i: int| 0 <= i < self.frontends@.len() && self.frontends@[i].0 == a
    }

    /// The position of the frontend that listens on `a`. Well defined
    /// whenever the configuration is well formed, since listen addresses
    /// are then distinct.
    pub open spec fn addr_slot(self, a: Addr) -> int {
        choose|i: int| 0 <= i < self.frontends@.len() && self.frontends@[i].0 == a
    }

    /// The backend index that serves listen address `a`.
    pub open spec fn addr_backend(self, a: Addr) -> int {
        self.frontends@[self.addr_slot(a)].1 as int
    }

    /// In a well-formed configuration, any frontend position holding
    /// address `a` is the one `addr_slot` names.
    pub proof fn lemma_addr_slot_unique(self, a: Addr, i: int)
        requires
            self.wf(),
            0 <= i < self.frontends@.len(),
            self.frontends@[i].0 == a,
        ensures
            self.has_addr(a),
            self.addr_slot(a) == i,
            self.addr_backend(a) == self.frontends@[i].1 as int,
    {
        assert(0 <= i < self.frontends@.len() && self.frontends@[i].0 == a);
        let j = self.addr_slot(a);
        assert(0 <= j < self.frontends@.len() && self.frontends@[j].0 == a);
        if i < j {
            assert(self.frontends@[i].0 != self.frontends@[j].0);
        } else if j < i {
            assert(self.frontends@[j].0 != self.frontends@[i].0);
        }
    }
}

/// The inputs to `build_resolved` are acceptable: every backend has at
/// least one target, every frontend names a backend that exists, and no
/// two frontends share a listen address.
pub open spec fn spec_resolved_inputs_valid(
    frontends: Seq<ResolvedFrontend>,
    backends: Seq<ResolvedBackend>,
) -> bool {
    &&& forall|i: int| 0 <= i < backends.len() ==> backends[i].targets@.len() >= 1
    &&& forall|i: int|
        #![trigger frontends[i]]
        0 <= i < frontends.len() ==> exists|k: int|
            #![trigger backends[k]]
            0 <= k < backends.len() && backends[k].name@ == frontends[i].backend@
    &&& forall|i: int, j: int|
        0 <= i < j < frontends.len() ==> frontends[i].listen_addr != frontends[j].listen_addr
}

pub(crate) fn copy_addrs(src: &Vec<Addr>) -> (r: Vec<Addr>)
    ensures
        r@ == src@,
{
    let mut out: Vec<Addr> = Vec::new();
    let mut i: usize = 0;
    while i < src.len()
        invariant
            i <= src@.len(),
            out@ == src@.take(i as int),
        decreases src@.len() - i,
    {
        out.push(src[i]);
        proof {
            assert(out@ =~= src@.take(i + 1 as int));
        }
        i += 1;
    }
    proof {
        assert(out@ =~= src@);
    }
    out
}

/// Join resolved frontends with resolved backends into the form a
/// reconfiguration consumes. Rejects, with `ConfigResolve`, exactly the
/// inputs where some backend has no target, some frontend names a
/// backend that does not exist, or two frontends share a listen address.
pub fn build_resolved(frontends: &Vec<ResolvedFrontend>, backends: &Vec<ResolvedBackend>) -> (r:
    Result<ResolvedConfig, Error>)
    ensures
        r is Ok <==> spec_resolved_inputs_valid(frontends@, backends@),
        r is Err ==> r->Err_0 == Error::ConfigResolve,
        r is Ok ==> {
            let rc = r->Ok_0;
            &&& rc.wf()
            &&& rc.backends@.len() == backends@.len()
            &&& forall|i: int|
                0 <= i < backends@.len() ==> rc.backends@[i]@ == backends@[i].targets@
            &&& rc.frontends@.len() == frontends@.len()
            &&& forall|i: int|
                #![trigger rc.frontends@[i]]
                0 <= i < frontends@.len() ==> {
                    let j = rc.frontends@[i].1 as int;
                    &&& rc.frontends@[i].0 == frontends@[i].listen_addr
                    &&& 0 <= j < backends@.len()
                    &&& backends@[j].name@ == frontends@[i].backend@
                    &&& forall|k: int|
                        #![trigger backends@[k]]
                        0 <= k < j ==> backends@[k].name@ != frontends@[i].backend@
                }
        },
{
    let mut out_backends: Vec<Vec<Addr>> = Vec::new();
    let mut bi: usize = 0;
    while bi < backends.len()
        invariant
            bi <= backends@.len(),
            out_backends@.len() == bi,
            forall|i: int| 0 <= i < bi ==> out_backends@[i]@ == backends@[i].targets@,
            forall|i: int| 0 <= i < bi ==> backends@[i].targets@.len() >= 1,
        decreases backends@.len() - bi,
    {
        if backends[bi].targets.len() == 0 {
            return Err(Error::ConfigResolve);
        }
        let copied = copy_addrs(&backends[bi].targets);
        out_backends.push(copied);
        bi += 1;
    }
    let mut out_frontends: Vec<(Addr, usize)> = Vec::new();
    let mut fi: usize = 0;
    while fi < frontends.len()
        invariant
            fi <= frontends@.len(),
            out_frontends@.len() == fi,
            out_backends@.len() == backends@.len(),
            forall|i: int| 0 <= i < backends@.len() ==> out_backends@[i]@ == backends@[i].targets@,
            forall|i: int| 0 <= i < backends@.len() ==> backends@[i].targets@.len() >= 1,
            forall|i: int|
                #![trigger out_frontends@[i]]
                0 <= i < fi ==> {
                    let j = out_frontends@[i].1 as int;
                    &&& out_frontends@[i].0 == frontends@[i].listen_addr
                    &&& 0 <= j < backends@.len()
                    &&& backends@[j].name@ == frontends@[i].backend@
                    &&& forall|k: int|
                        #![trigger backends@[k]]
                        0 <= k < j ==> backends@[k].name@ != frontends@[i].backend@
                },
            forall|i: int, j: int|
                0 <= i < j < fi ==> frontends@[i].listen_addr != frontends@[j].listen_addr,
        decreases frontends@.len() - fi,
    {
        let mut di: usize = 0;
        while di < fi
            invariant
                di <= fi,
                fi < frontends@.len(),
                forall|i: int| 0 <= i < di ==> frontends@[i].listen_addr != frontends@[
                    fi as int
                ].listen_addr,
            decreases fi - di,
        {
            if frontends[di].listen_addr == frontends[fi].listen_addr {
                return Err(Error::ConfigResolve);
            }
            di += 1;
        }
        let mut j: usize = 0;
        let mut found: bool = false;
        while j < backends.len() && !found
            invariant
                j <= backends@.len(),
                fi < frontends@.len(),
                found ==> j >= 1 && backends@[j - 1].name@ == frontends@[fi as int].backend@,
                !found ==> forall|k: int|
                    0 <= k < j ==> backends@[k].name@ != frontends@[fi as int].backend@,
                forall|k: int|
                    0 <= k < (if found {
                        j - 1
                    } else {
                        j as int
                    }) ==> backends@[k].name@ != frontends@[fi as int].backend@,
            decreases backends@.len() - j,
        {
            if backends[j].name == frontends[fi].backend {
                found = true;
            }
            j += 1;
        }
        if !found {
            return Err(Error::ConfigResolve);
        }
        out_frontends.push((frontends[fi].listen_addr, j - 1));
        fi += 1;
    }
    let rc = ResolvedConfig { backends: out_backends, frontends: out_frontends };
    proof {
        assert forall|i: int| #![trigger frontends@[i]] 0 <= i < frontends@.len() implies exists|
            k: int,
        |
            #![trigger backends@[k]]
            0 <= k < backends@.len() && backends@[k].name@ == frontends@[i].backend@ by {
            let j = rc.frontends@[i].1 as int;
            assert(0 <= j < backends@.len() && backends@[j].name@ == frontends@[i].backend@);
        }
    }
    Ok(rc)
}

} // verus!
