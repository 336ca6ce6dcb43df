use vstd::prelude::*;

verus! {

/// Error kinds surfaced by the core.
///
/// `ConfigResolve` and `Bind` abort startup, or abort a live
/// reconfiguration while leaving the running state unchanged. The
/// transient kinds are logged by the embedding program and the offending
/// connection is dropped. `InvariantViolation` marks an impossible decoded
/// state and is fatal.
#[derive(Debug, Copy, Clone, PartialEq, Eq, Structural)]
pub enum Error {
    /// An address could not be resolved to exactly one socket address, a
    /// backend has an empty target list, a frontend names an unknown
    /// backend, or two frontends share one listen address.
    ConfigResolve,
    /// A listen socket could not be bound.
    Bind,
    /// Connection or listener capacity is exhausted.
    SlabFull,
    /// Accepting a client failed with an error other than would-block.
    AcceptTransient,
    /// The outbound connect to a target failed.
    ConnectTransient,
    /// A read or write failed with an error other than would-block.
    IoTransient,
    /// An impossible decoded state was observed.
    InvariantViolation,
}

impl Error {
    /// A short human-readable name for logging.
    pub fn describe(&self) -> &'static str {
        match self {
            Error::ConfigResolve => "could not resolve configuration",
            Error::Bind => "could not bind listen socket",
            Error::SlabFull => "capacity exhausted",
            Error::AcceptTransient => "accept failed",
            Error::ConnectTransient => "connect failed",
            Error::IoTransient => "read or write failed",
            Error::InvariantViolation => "invariant violation",
        }
    }
}

} // verus!
