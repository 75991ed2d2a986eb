//! Parameter smoothing support types. The smoothing filter itself is a
//! node-level concern; the engine only defines the status it reports.

use vstd::prelude::*;

verus! {

/// The state of a parameter smoother.
#[derive(Debug, Clone, Copy, PartialEq, Eq, Structural)]
pub enum SmootherStatus {
    /// Not smoothing: the output is one constant value.
    Inactive,
    /// Smoothing: the output values change across the block.
    Active,
    /// Smoothing, but it settles after the current block.
    Deactivating,
}

impl SmootherStatus {
    /// Whether the smoother still changes its output.
    pub fn is_active(&self) -> (r: bool)
        ensures
            r == !(self is Inactive),
    {
        !matches!(self, SmootherStatus::Inactive)
    }
}

} // verus!
