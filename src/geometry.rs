use vstd::prelude::*;

verus! {

/// Why a ray produced no surface point.
#[derive(Debug, Clone, Copy, PartialEq, Eq, Structural)]
pub enum CastingError {
    NoIntersection,
}

} // verus!
