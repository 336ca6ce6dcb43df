use vstd::prelude::*;

verus! {

/// Readiness of one socket half, as reported by the poller: the four bits
/// `READABLE`, `WRITABLE`, `ERROR` and `HUP`, modelled as plain booleans.
/// A half is considered closed when `ERROR` or `HUP` is set.
#[derive(Debug, Copy, Clone, PartialEq, Eq, Structural)]
pub struct Readiness {
    pub readable: bool,
    pub writable: bool,
    pub error: bool,
    pub hup: bool,
}

impl Readiness {
    /// No bits set.
    pub fn empty() -> (r: Readiness)
        ensures
            r == Readiness::spec_empty(),
    {
        Readiness { readable: false, writable: false, error: false, hup: false }
    }

    pub open spec fn spec_empty() -> Readiness {
        Readiness { readable: false, writable: false, error: false, hup: false }
    }

    /// The union of two readiness sets.
    pub open spec fn spec_union(self, other: Readiness) -> Readiness {
        Readiness {
            readable: self.readable || other.readable,
            writable: self.writable || other.writable,
            error: self.error || other.error,
            hup: self.hup || other.hup,
        }
    }

    /// Set every bit that is set in `other`. Non-destructive: no bit is
    /// cleared.
    pub fn insert(&mut self, other: Readiness)
        ensures
            *final(self) == old(self).spec_union(other),
    {
        self.readable = self.readable || other.readable;
        self.writable = self.writable || other.writable;
        self.error = self.error || other.error;
        self.hup = self.hup || other.hup;
    }

    /// `self` with the `READABLE` bit cleared.
    pub open spec fn spec_clear_readable(self) -> Readiness {
        Readiness { readable: false, ..self }
    }

    /// `self` with the `WRITABLE` bit cleared.
    pub open spec fn spec_clear_writable(self) -> Readiness {
        Readiness { writable: false, ..self }
    }

    pub fn is_readable(&self) -> (r: bool)
        ensures
            r == self.readable,
    {
        self.readable
    }

    pub fn is_writable(&self) -> (r: bool)
        ensures
            r == self.writable,
    {
        self.writable
    }

    /// True iff `ERROR` or `HUP` is set: the half is closed.
    pub open spec fn spec_is_closed(self) -> bool {
        self.error || self.hup
    }

    pub fn is_closed(&self) -> (r: bool)
        ensures
            r == self.spec_is_closed(),
    {
        self.error || self.hup
    }
}

} // verus!
