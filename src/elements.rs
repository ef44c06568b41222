use vstd::prelude::*;

verus! {

/// The closed set of transport kinds that a lattice element can have.
#[derive(Debug, Clone, Copy, PartialEq, Eq, Structural)]
pub enum EleType {
    Drift,
    Dipole,
    AccCav,
}

} // verus!
