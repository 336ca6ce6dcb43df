use vstd::prelude::*;

verus! {

/// Identity of a backend, stable across reconfigurations that keep it.
#[derive(Debug, Copy, Clone, PartialEq, Eq, Structural)]
pub struct BackendId(pub u64);

} // verus!
