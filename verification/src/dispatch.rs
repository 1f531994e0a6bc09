//! Indirect-dispatch argument derivation.
//!
//! After a round writes its destination queue, the next round's workgroup
//! count is derived from that queue's clamped length, with no round trip to
//! the controller: one workgroup per surviving patch, and unit extent on the
//! other two axes. Before each round the destination's argument record is
//! first restored from a zero template so no stale count survives.

use vstd::prelude::*;
use crate::queue::PatchQueue;

verus! {

/// Workgroup counts for the next round's subdivision pass.
#[derive(Clone, Copy, PartialEq, Eq, Structural, Debug)]
pub struct DispatchIndirectArgs {
    pub x: u32,
    pub y: u32,
    pub z: u32,
}

impl DispatchIndirectArgs {
    /// The zero template copied over a dispatch record before its round:
    /// no work on `x`, unit extent elsewhere.
    pub open spec fn reset_spec() -> DispatchIndirectArgs {
        DispatchIndirectArgs { x: 0, y: 1, z: 1 }
    }

    /// Arguments sized for a queue holding `len` patches.
    pub open spec fn sized_for(len: int) -> DispatchIndirectArgs {
        DispatchIndirectArgs { x: len as u32, y: 1, z: 1 }
    }

    /// The zero template value.
    pub fn reset_template() -> (a: DispatchIndirectArgs)
        ensures
            a == DispatchIndirectArgs::reset_spec(),
    {
        DispatchIndirectArgs { x: 0, y: 1, z: 1 }
    }

    /// Size the next round from the destination queue of the round just
    /// completed: its raw length clamped to the capacity.
    pub fn derive(queue: &PatchQueue) -> (a: DispatchIndirectArgs)
        ensures
            a == DispatchIndirectArgs::sized_for(queue@.clamped_len()),
            a.x as int == queue@.clamped_len(),
            a.y == 1,
            a.z == 1,
    {
        DispatchIndirectArgs { x: queue.len_clamped(), y: 1, z: 1 }
    }
}

} // verus!
