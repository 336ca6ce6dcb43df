use vstd::prelude::*;

use crate::addr::Addr;

verus! {

/// An immutable binding from one listen address to the backends that
/// serve it. Backends are named by index into the driver state's backend
/// table, so several listeners can share one router and a
/// reconfiguration can repoint a listener by rewriting the index.
pub struct Frontend {
    listen_addr: Addr,
    backends: Vec<usize>,
}

impl Frontend {
    pub closed spec fn addr(self) -> Addr {
        self.listen_addr
    }

    pub closed spec fn backend_list(self) -> Seq<usize> {
        self.backends@
    }

    pub open spec fn wf(self) -> bool {
        self.backend_list().len() >= 1
    }

    pub fn new(listen_addr: Addr, backends: Vec<usize>) -> (f: Frontend)
        requires
            backends@.len() >= 1,
        ensures
            f.wf(),
            f.addr() == listen_addr,
            f.backend_list() == backends@,
    {
        Frontend { listen_addr, backends }
    }

    /// The one address this frontend listens on.
    pub fn listen_addr(&self) -> (r: Addr)
        ensures
            r == self.addr(),
    {
        self.listen_addr
    }

    /// The addresses this frontend listens on.
    pub fn listen_addrs(&self) -> (r: Vec<Addr>)
        ensures
            r@ == seq![self.addr()],
    {
        let mut v: Vec<Addr> = Vec::new();
        v.push(self.listen_addr);
        proof {
            assert(v@ =~= seq![self.addr()]);
        }
        v
    }

    /// The backend that serves a new connection: the first of the list.
    pub fn decide_backend(&self) -> (r: usize)
        requires
            self.wf(),
        ensures
            r == self.backend_list()[0],
    {
        self.backends[0]
    }
}

} // verus!
