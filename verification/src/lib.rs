//! Adaptive patch subdivision for parametric surfaces.
//!
//! A handful of root patches per object instance is refined, over a fixed
//! number of rounds, into a size-bucketed set of leaf patches ready for
//! indexed-indirect drawing. Queues and buckets are capacity-bounded: an
//! append past capacity is counted but silently dropped, and every consumer
//! clamps the raw counter to the capacity before using it.

pub mod decider;
pub mod dispatch;
pub mod laws;
pub mod lod;
pub mod patch;
pub mod queue;
pub mod render_buffers;
pub mod scene;
pub mod stage;

use vstd::prelude::*;

verus! {

/// Capacity of every patch queue and render bucket.
pub const MAX_PATCH_COUNT: u32 = 524288;

/// Each frame runs one ping-pong pair of subdivision passes per entry of the
/// round budget, so the number of rounds is twice this constant.
pub const DOUBLE_ROUNDS: u32 = 4;

/// Number of subdivision rounds per frame: always exactly `2 * DOUBLE_ROUNDS`,
/// independent of scene content or thresholds.
pub const ROUNDS: u32 = 8;

/// Hard bound on the subdivision depth a patch address may encode; equal to
/// the round budget, so a child is never more than one level deeper than the
/// deepest patch a full frame can produce.
pub const MAX_DEPTH: u32 = 8;

/// Number of render buckets, one per supported tessellation density.
pub const NUM_BUCKETS: usize = 5;

} // verus!
