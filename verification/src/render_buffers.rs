//! Render buckets and indexed-indirect draw arguments.
//!
//! Five buckets accumulate leaf patches for a whole frame, one per supported
//! tessellation density, smallest to largest. Bucket choice is a function of
//! a leaf's depth alone: each subdivision halves a patch, so each further
//! level needs a mesh of half the side to keep the on-screen quad density,
//! and depths past the range use the sparsest mesh. After the final round a
//! single derivation step copies every bucket's clamped length into the
//! `instance_count` of that bucket's draw arguments; the index counts are
//! fixed at construction from the precomputed quad mesh of each density.

use vstd::prelude::*;
use crate::NUM_BUCKETS;
use crate::patch::EncodedPatch;
use crate::queue::{PatchQueue, QueueModel};

verus! {

/// Arguments of one indexed-indirect draw, one record per bucket.
#[derive(Clone, Copy, PartialEq, Eq, Structural, Debug)]
pub struct DrawIndexedIndirectArgs {
    pub index_count: u32,
    pub instance_count: u32,
    pub first_index: u32,
    pub base_vertex: u32,
    pub first_instance: u32,
}

/// Side length, in quads at full density, of the tessellated quad mesh drawn
/// for the given bucket: 2, 4, 8, 16 or 32.
pub open spec fn patch_size(bucket: int) -> u32 {
    if bucket <= 0 {
        2
    } else if bucket == 1 {
        4
    } else if bucket == 2 {
        8
    } else if bucket == 3 {
        16
    } else {
        32
    }
}

/// Index count of the precomputed mesh for one bucket: the mesh has
/// `(size / 2)` quads per side, each quad two triangles of three indices.
pub open spec fn quad_index_count(bucket: int) -> u32 {
    (6 * (patch_size(bucket) as int / 2) * (patch_size(bucket) as int / 2)) as u32
}

/// The bucket whose density most tightly matches a leaf's depth: the densest
/// mesh for a root-sized leaf, half the side per further level, the sparsest
/// mesh for anything at or past the bucket range.
pub open spec fn bucket_for_depth(depth: int) -> int {
    let finest = NUM_BUCKETS as int - 1;
    if depth >= finest {
        0
    } else if depth <= 0 {
        finest
    } else {
        finest - depth
    }
}

/// Executable bucket selection; total over every depth the round budget
/// admits.
pub fn bucket_index_for_depth(depth: u32) -> (b: usize)
    ensures
        b as int == bucket_for_depth(depth as int),
        b < NUM_BUCKETS,
{
    if depth as usize >= NUM_BUCKETS - 1 {
        0
    } else {
        NUM_BUCKETS - 1 - depth as usize
    }
}

/// The per-frame render output: five leaf buckets and the draw-argument
/// record of each.
pub struct ParametricModelRender {
    pub render_buffer_2: PatchQueue,
    pub render_buffer_4: PatchQueue,
    pub render_buffer_8: PatchQueue,
    pub render_buffer_16: PatchQueue,
    pub render_buffer_32: PatchQueue,
    pub indirect_draw: Vec<DrawIndexedIndirectArgs>,
}

impl ParametricModelRender {
    /// The five bucket states, ordered from sparsest to densest mesh.
    pub open spec fn buckets(self) -> Seq<QueueModel> {
        seq![
            self.render_buffer_2@,
            self.render_buffer_4@,
            self.render_buffer_8@,
            self.render_buffer_16@,
            self.render_buffer_32@,
        ]
    }

    pub open spec fn draws(self) -> Seq<DrawIndexedIndirectArgs> {
        self.indirect_draw@
    }

    /// The shared bucket capacity.
    pub open spec fn cap(self) -> int {
        self.render_buffer_2@.cap
    }

    pub open spec fn wf(self) -> bool {
        &&& self.render_buffer_2@.wf()
        &&& self.render_buffer_4@.wf()
        &&& self.render_buffer_8@.wf()
        &&& self.render_buffer_16@.wf()
        &&& self.render_buffer_32@.wf()
        &&& self.render_buffer_4@.cap == self.cap()
        &&& self.render_buffer_8@.cap == self.cap()
        &&& self.render_buffer_16@.cap == self.cap()
        &&& self.render_buffer_32@.cap == self.cap()
        &&& self.indirect_draw@.len() == NUM_BUCKETS
    }

    /// Empty buckets of one shared capacity; draw arguments carry the fixed
    /// index count of each density's mesh and no instances yet.
    pub fn new(capacity: u32) -> (r: ParametricModelRender)
        ensures
            r.wf(),
            r.cap() == capacity as int,
            forall|b: int|
                0 <= b < NUM_BUCKETS ==> #[trigger] r.buckets()[b] == QueueModel::empty(
                    capacity as int,
                ),
            forall|b: int|
                0 <= b < NUM_BUCKETS ==> #[trigger] r.draws()[b] == (DrawIndexedIndirectArgs {
                    index_count: quad_index_count(b),
                    instance_count: 0,
                    first_index: 0,
                    base_vertex: 0,
                    first_instance: 0,
                }),
    {
        let mut indirect_draw: Vec<DrawIndexedIndirectArgs> = Vec::new();
        let mut b: usize = 0;
        while b < NUM_BUCKETS
            invariant
                b <= NUM_BUCKETS,
                indirect_draw@.len() == b,
                forall|i: int|
                    0 <= i < b ==> #[trigger] indirect_draw@[i] == (DrawIndexedIndirectArgs {
                        index_count: quad_index_count(i),
                        instance_count: 0,
                        first_index: 0,
                        base_vertex: 0,
                        first_instance: 0,
                    }),
            decreases NUM_BUCKETS - b,
        {
            let size: u32 = if b == 0 {
                2
            } else if b == 1 {
                4
            } else if b == 2 {
                8
            } else if b == 3 {
                16
            } else {
                32
            };
            let quads_per_side: u32 = size / 2;
            proof {
                assert(6 * quads_per_side * quads_per_side <= 1536) by (nonlinear_arith)
                    requires
                        quads_per_side <= 16,
                ;
            }
            indirect_draw.push(
                DrawIndexedIndirectArgs {
                    index_count: 6 * quads_per_side * quads_per_side,
                    instance_count: 0,
                    first_index: 0,
                    base_vertex: 0,
                    first_instance: 0,
                },
            );
            b = b + 1;
        }
        ParametricModelRender {
            render_buffer_2: PatchQueue::new(capacity),
            render_buffer_4: PatchQueue::new(capacity),
            render_buffer_8: PatchQueue::new(capacity),
            render_buffer_16: PatchQueue::new(capacity),
            render_buffer_32: PatchQueue::new(capacity),
            indirect_draw,
        }
    }

    /// Record one leaf patch in the chosen bucket, with the silent
    /// saturating-drop policy of every bounded append.
    pub fn append_leaf(&mut self, bucket: usize, p: EncodedPatch) -> (stored: bool)
        requires
            old(self).wf(),
            bucket < NUM_BUCKETS,
            old(self).buckets()[bucket as int].raw < u32::MAX,
        ensures
            final(self).wf(),
            final(self).buckets() =~= old(self).buckets().update(
                bucket as int,
                old(self).buckets()[bucket as int].append(p),
            ),
            final(self).draws() == old(self).draws(),
            final(self).cap() == old(self).cap(),
            stored == (old(self).buckets()[bucket as int].raw < old(self).cap()),
    {
        if bucket == 0 {
            self.render_buffer_2.try_append(p)
        } else if bucket == 1 {
            self.render_buffer_4.try_append(p)
        } else if bucket == 2 {
            self.render_buffer_8.try_append(p)
        } else if bucket == 3 {
            self.render_buffer_16.try_append(p)
        } else {
            self.render_buffer_32.try_append(p)
        }
    }

    /// Empty every bucket, once per frame: leaves accumulate across all
    /// rounds of one frame and never across frames.
    pub fn reset_buckets(&mut self)
        requires
            old(self).wf(),
        ensures
            final(self).wf(),
            final(self).cap() == old(self).cap(),
            forall|b: int|
                0 <= b < NUM_BUCKETS ==> #[trigger] final(self).buckets()[b] == QueueModel::empty(
                    old(self).cap(),
                ),
            final(self).draws() == old(self).draws(),
    {
        self.render_buffer_2.reset();
        self.render_buffer_4.reset();
        self.render_buffer_8.reset();
        self.render_buffer_16.reset();
        self.render_buffer_32.reset();
    }

    /// Copy every bucket's clamped length into the `instance_count` of its
    /// draw arguments; all other draw fields are left as constructed.
    pub fn derive_draw_args(&mut self)
        requires
            old(self).wf(),
        ensures
            final(self).wf(),
            final(self).cap() == old(self).cap(),
            final(self).buckets() == old(self).buckets(),
            final(self).draws().len() == NUM_BUCKETS,
            forall|b: int|
                0 <= b < NUM_BUCKETS ==> #[trigger] final(self).draws()[b]
                    == (DrawIndexedIndirectArgs {
                    instance_count: old(self).buckets()[b].clamped_len() as u32,
                    ..old(self).draws()[b]
                }),
    {
        let d0 = self.indirect_draw[0];
        let d1 = self.indirect_draw[1];
        let d2 = self.indirect_draw[2];
        let d3 = self.indirect_draw[3];
        let d4 = self.indirect_draw[4];
        let updated: Vec<DrawIndexedIndirectArgs> = vec![
            DrawIndexedIndirectArgs {
                instance_count: self.render_buffer_2.len_clamped(),
                ..d0
            },
            DrawIndexedIndirectArgs {
                instance_count: self.render_buffer_4.len_clamped(),
                ..d1
            },
            DrawIndexedIndirectArgs {
                instance_count: self.render_buffer_8.len_clamped(),
                ..d2
            },
            DrawIndexedIndirectArgs {
                instance_count: self.render_buffer_16.len_clamped(),
                ..d3
            },
            DrawIndexedIndirectArgs {
                instance_count: self.render_buffer_32.len_clamped(),
                ..d4
            },
        ];
        self.indirect_draw = updated;
    }
}

} // verus!
