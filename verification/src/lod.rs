//! Frame orchestration: seeding, the fixed round budget, forced
//! termination, and draw-argument derivation, as one ordered unit of work
//! per object per frame.
//!
//! Two physical queues alternate source and destination roles every round:
//! queue 0 is the source on even rounds, queue 1 on odd rounds. The
//! destination queue and its dispatch-argument record are restored from
//! zero templates immediately before being written. The force-render flag
//! is false for every round except the very last, which flushes every
//! surviving patch into a bucket and so bounds the total work of a frame
//! whatever the scene asks for.

use vstd::prelude::*;
use crate::{MAX_PATCH_COUNT, NUM_BUCKETS, ROUNDS};
use crate::decider::SubdivisionDecider;
use crate::dispatch::DispatchIndirectArgs;
use crate::patch::EncodedPatch;
use crate::queue::{PatchQueue, QueueModel};
use crate::render_buffers::{DrawIndexedIndirectArgs, ParametricModelRender, bucket_for_depth};
use crate::stage::{StageModel, stage_run, subdivision_pass};
use crate::stage::{lemma_stage_run_invariants, lemma_stage_run_items};

verus! {

/// Frame-scoped flag: non-zero only during the final round, when every
/// surviving patch is rendered instead of refined.
#[derive(Clone, Copy, PartialEq, Eq, Structural, Debug)]
pub struct ForceRenderFlag {
    pub flag: u32,
}

/// The precomputed constant templates copied over a round's destination
/// buffers before the round runs, so no stale state survives.
pub struct ComputePatches {
    /// An empty queue at full capacity.
    pub patches_buffer_reset: PatchQueue,
    /// No work on `x`, unit extent elsewhere.
    pub indirect_compute_buffer_reset: DispatchIndirectArgs,
    pub force_render_false: ForceRenderFlag,
    pub force_render_true: ForceRenderFlag,
}

impl ComputePatches {
    pub open spec fn cap(self) -> int {
        self.patches_buffer_reset@.cap
    }

    pub open spec fn wf(self) -> bool {
        &&& self.patches_buffer_reset@ == QueueModel::empty(self.cap())
        &&& self.indirect_compute_buffer_reset == DispatchIndirectArgs::reset_spec()
        &&& self.force_render_false.flag == 0
        &&& self.force_render_true.flag == 1
    }

    pub fn new(capacity: u32) -> (r: ComputePatches)
        ensures
            r.wf(),
            r.cap() == capacity as int,
    {
        ComputePatches {
            patches_buffer_reset: PatchQueue::new(capacity),
            indirect_compute_buffer_reset: DispatchIndirectArgs::reset_template(),
            force_render_false: ForceRenderFlag { flag: 0 },
            force_render_true: ForceRenderFlag { flag: 1 },
        }
    }
}

/// Per-object refinement state: the two ping-pong queues, the two
/// indirect-dispatch records chained to them, and the force-render flag.
pub struct ParametricModelLod {
    pub patches_buffer_0: PatchQueue,
    pub patches_buffer_1: PatchQueue,
    pub indirect_compute_buffer_0: DispatchIndirectArgs,
    pub indirect_compute_buffer_1: DispatchIndirectArgs,
    pub force_render_uniform: ForceRenderFlag,
}

impl ParametricModelLod {
    pub open spec fn cap(self) -> int {
        self.patches_buffer_0@.cap
    }

    pub open spec fn wf(self) -> bool {
        &&& self.patches_buffer_0@.wf()
        &&& self.patches_buffer_1@.wf()
        &&& self.patches_buffer_1@.cap == self.cap()
        &&& self.cap() <= MAX_PATCH_COUNT as int
    }

    /// Two empty queues of one capacity; the dispatch records start as the
    /// zero template and the flag starts lowered.
    pub fn new(capacity: u32) -> (r: ParametricModelLod)
        requires
            capacity <= MAX_PATCH_COUNT,
        ensures
            r.wf(),
            r.cap() == capacity as int,
            r.patches_buffer_0@ == QueueModel::empty(capacity as int),
            r.patches_buffer_1@ == QueueModel::empty(capacity as int),
            r.indirect_compute_buffer_0 == DispatchIndirectArgs::reset_spec(),
            r.indirect_compute_buffer_1 == DispatchIndirectArgs::reset_spec(),
            r.force_render_uniform.flag == 0,
    {
        ParametricModelLod {
            patches_buffer_0: PatchQueue::new(capacity),
            patches_buffer_1: PatchQueue::new(capacity),
            indirect_compute_buffer_0: DispatchIndirectArgs::reset_template(),
            indirect_compute_buffer_1: DispatchIndirectArgs::reset_template(),
            force_render_uniform: ForceRenderFlag { flag: 0 },
        }
    }
}

/// State between two rounds of one frame: the queue holding the surviving
/// patches and the five buckets.
pub ghost struct PassState {
    pub queue: QueueModel,
    pub buckets: Seq<QueueModel>,
}

/// The smaller of the instance count and the queue capacity: how many root
/// patches survive seeding.
pub open spec fn clamp_to_cap(n: int, cap: int) -> int {
    if n <= cap {
        n
    } else {
        cap
    }
}

/// The stored root patches after seeding: one per instance, in instance
/// order, saturating at the capacity.
pub open spec fn seed_items(instance_count: int, cap: int) -> Seq<EncodedPatch> {
    Seq::new(
        clamp_to_cap(instance_count, cap) as nat,
        |i: int| EncodedPatch::root_spec(i as u32),
    )
}

/// The source queue as seeding leaves it: the raw counter holds the full
/// instance count, the stored patches saturate at the capacity.
pub open spec fn seeded_queue(instance_count: int, cap: int) -> QueueModel {
    QueueModel { raw: instance_count, cap, items: seed_items(instance_count, cap) }
}

/// Frame state before the first round: the seeded queue and five empty
/// buckets.
pub open spec fn frame_start(instance_count: int, cap: int) -> PassState {
    PassState {
        queue: seeded_queue(instance_count, cap),
        buckets: Seq::new(NUM_BUCKETS as nat, |b: int| QueueModel::empty(cap)),
    }
}

/// One round: run the subdivision stage over the source queue's stored
/// patches, into a freshly reset destination queue and the accumulated
/// buckets.
pub open spec fn frame_pass<D: SubdivisionDecider>(d: D, force: bool, s: PassState) -> PassState {
    let out = stage_run(
        d,
        force,
        StageModel { to: QueueModel::empty(s.queue.cap), buckets: s.buckets },
        s.queue.items,
    );
    PassState { queue: out.to, buckets: out.buckets }
}

/// Frame state after the first `n` rounds. The force-render flag is raised
/// for exactly the last round of the fixed budget.
pub open spec fn frame_passes<D: SubdivisionDecider>(d: D, s: PassState, n: nat) -> PassState
    decreases n,
{
    if n == 0 {
        s
    } else {
        frame_pass(d, n == ROUNDS as nat, frame_passes(d, s, (n - 1) as nat))
    }
}

/// Invariants of the frame state after `n` of the budgeted rounds: queues
/// and buckets stay well formed at the frame's capacity, every surviving
/// patch sits at depth exactly `n` — it subdivided once per round it
/// survived — every banked leaf sits strictly below depth `n`, and no
/// bucket has seen more appends than one per source patch per round.
pub proof fn lemma_frame_state_wf<D: SubdivisionDecider>(
    d: D,
    instance_count: int,
    cap: int,
    n: nat,
)
    requires
        0 <= instance_count <= u32::MAX,
        0 <= cap <= MAX_PATCH_COUNT as int,
        n <= ROUNDS as nat,
    ensures
        frame_passes(d, frame_start(instance_count, cap), n).queue.wf(),
        frame_passes(d, frame_start(instance_count, cap), n).queue.cap == cap,
        frame_passes(d, frame_start(instance_count, cap), n).queue.all_wf(),
        frame_passes(d, frame_start(instance_count, cap), n).queue.all_at_depth(n as int),
        frame_passes(d, frame_start(instance_count, cap), n).buckets.len() == NUM_BUCKETS as int,
        forall|b: int|
            0 <= b < NUM_BUCKETS as int ==> (#[trigger] frame_passes(
                d,
                frame_start(instance_count, cap),
                n,
            ).buckets[b]).wf(),
        forall|b: int|
            0 <= b < NUM_BUCKETS as int ==> (#[trigger] frame_passes(
                d,
                frame_start(instance_count, cap),
                n,
            ).buckets[b]).cap == cap,
        forall|b: int|
            0 <= b < NUM_BUCKETS as int ==> (#[trigger] frame_passes(
                d,
                frame_start(instance_count, cap),
                n,
            ).buckets[b]).raw <= n * cap,
        forall|b: int, i: int|
            0 <= b < NUM_BUCKETS as int && 0 <= i < frame_passes(
                d,
                frame_start(instance_count, cap),
                n,
            ).buckets[b].items.len() ==> (#[trigger] frame_passes(
                d,
                frame_start(instance_count, cap),
                n,
            ).buckets[b].items[i]).wf() && frame_passes(
                d,
                frame_start(instance_count, cap),
                n,
            ).buckets[b].items[i].depth() < n && bucket_for_depth(
                frame_passes(d, frame_start(instance_count, cap), n).buckets[b].items[i].depth(),
            ) == b,
    decreases n,
{
    let start = frame_start(instance_count, cap);
    if n == 0 {
        assert forall|i: int| 0 <= i < start.queue.items.len() implies (#[trigger] start.queue.items[i]).wf()
            && start.queue.items[i].depth() == 0 by {
            reveal_with_fuel(crate::patch::bit_len, 3);
        }
    } else {
        lemma_frame_state_wf(d, instance_count, cap, (n - 1) as nat);
        let prev = frame_passes(d, start, (n - 1) as nat);
        let force = n == ROUNDS as nat;
        let s = StageModel { to: QueueModel::empty(cap), buckets: prev.buckets };
        lemma_stage_run_invariants(d, force, s, prev.queue.items);
        lemma_stage_run_items(d, force, s, prev.queue.items, (n - 1) as int);
        assert forall|b: int| 0 <= b < NUM_BUCKETS as int implies (#[trigger] frame_passes(
            d,
            start,
            n,
        ).buckets[b]).raw <= n * cap by {
            assert(prev.buckets[b].raw <= (n - 1) * cap);
            assert(prev.queue.items.len() <= cap);
            assert((n - 1) * cap + cap == n * cap) by (nonlinear_arith);
        }
    }
}

/// One renderable object's refinement pipeline: the per-round state and
/// the per-frame render output.
pub struct ParametricModel {
    pub lod: ParametricModelLod,
    pub render: ParametricModelRender,
}

impl ParametricModel {
    pub open spec fn cap(self) -> int {
        self.lod.cap()
    }

    pub open spec fn wf(self) -> bool {
        &&& self.lod.wf()
        &&& self.render.wf()
        &&& self.render.cap() == self.cap()
    }

    pub fn new(capacity: u32) -> (r: ParametricModel)
        requires
            capacity <= MAX_PATCH_COUNT,
        ensures
            r.wf(),
            r.cap() == capacity as int,
            forall|b: int|
                0 <= b < NUM_BUCKETS as int ==> #[trigger] r.render.draws()[b]
                    == (DrawIndexedIndirectArgs {
                    index_count: crate::render_buffers::quad_index_count(b),
                    instance_count: 0,
                    first_index: 0,
                    base_vertex: 0,
                    first_instance: 0,
                }),
    {
        ParametricModel {
            lod: ParametricModelLod::new(capacity),
            render: ParametricModelRender::new(capacity),
        }
    }

    /// One whole frame of refinement for this object: seed one root patch
    /// per instance, run exactly the budgeted number of rounds with the
    /// final one forced, then copy every bucket's clamped occupancy into
    /// its draw arguments. Returns the number of rounds run, which is the
    /// fixed budget whatever the scene contains.
    pub fn lod_stage<D: SubdivisionDecider>(
        &mut self,
        compute_patches: &ComputePatches,
        decider: &D,
        instance_count: u32,
    ) -> (rounds_run: u32)
        requires
            old(self).wf(),
            compute_patches.wf(),
            compute_patches.cap() == old(self).cap(),
        ensures
            rounds_run == ROUNDS,
            final(self).wf(),
            final(self).cap() == old(self).cap(),
            final(self).lod.patches_buffer_0@ == frame_passes(
                *decider,
                frame_start(instance_count as int, old(self).cap()),
                ROUNDS as nat,
            ).queue,
            final(self).lod.indirect_compute_buffer_0 == DispatchIndirectArgs::sized_for(
                frame_passes(
                    *decider,
                    frame_start(instance_count as int, old(self).cap()),
                    ROUNDS as nat,
                ).queue.clamped_len(),
            ),
            final(self).render.buckets() == frame_passes(
                *decider,
                frame_start(instance_count as int, old(self).cap()),
                ROUNDS as nat,
            ).buckets,
            final(self).render.draws().len() == NUM_BUCKETS as int,
            forall|b: int|
                0 <= b < NUM_BUCKETS as int ==> #[trigger] final(self).render.draws()[b]
                    == (DrawIndexedIndirectArgs {
                    instance_count: frame_passes(
                        *decider,
                        frame_start(instance_count as int, old(self).cap()),
                        ROUNDS as nat,
                    ).buckets[b].clamped_len() as u32,
                    ..old(self).render.draws()[b]
                }),
            final(self).lod.force_render_uniform.flag == 0,
    {
        let ghost d0 = *decider;
        let ghost cap = old(self).cap();
        let ghost start = frame_start(instance_count as int, cap);

        // Frame setup: flag lowered, queue 0 seeded with one root patch per
        // instance, its dispatch record sized for the seeds, buckets
        // emptied for the new frame.
        self.lod.force_render_uniform = compute_patches.force_render_false;
        self.lod.patches_buffer_0.reset_from(&compute_patches.patches_buffer_reset);
        let mut inst: u32 = 0;
        proof {
            assert(self.lod.patches_buffer_0@.items =~= seed_items(0, cap));
        }
        while inst < instance_count
            invariant
                inst <= instance_count,
                cap == old(self).cap(),
                0 <= cap <= MAX_PATCH_COUNT as int,
                self.lod.patches_buffer_0@.raw == inst as int,
                self.lod.patches_buffer_0@.cap == cap,
                self.lod.patches_buffer_0@.wf(),
                self.lod.patches_buffer_0@.items == seed_items(inst as int, cap),
                self.lod.patches_buffer_1 == old(self).lod.patches_buffer_1,
                self.lod.indirect_compute_buffer_0 == old(self).lod.indirect_compute_buffer_0,
                self.lod.indirect_compute_buffer_1 == old(self).lod.indirect_compute_buffer_1,
                self.lod.force_render_uniform.flag == 0,
                self.render == old(self).render,
            decreases instance_count - inst,
        {
            let root = EncodedPatch::root(inst);
            self.lod.patches_buffer_0.try_append(root);
            inst = inst + 1;
            proof {
                assert(self.lod.patches_buffer_0@.items =~= seed_items(inst as int, cap));
            }
        }
        self.lod.indirect_compute_buffer_0 = DispatchIndirectArgs::derive(
            &self.lod.patches_buffer_0,
        );
        self.render.reset_buckets();
        proof {
            assert(self.lod.patches_buffer_0@ == start.queue);
            assert(self.render.buckets() =~= start.buckets);
        }

        // The budgeted rounds, alternating queue roles; the destination
        // queue and dispatch record are restored from the zero templates
        // before each round writes them.
        let mut round: u32 = 0;
        while round < ROUNDS
            invariant
                round <= ROUNDS,
                d0 == *decider,
                cap == old(self).cap(),
                0 <= cap <= MAX_PATCH_COUNT as int,
                start == frame_start(instance_count as int, cap),
                compute_patches.wf(),
                compute_patches.cap() == cap,
                self.lod.patches_buffer_0@.wf(),
                self.lod.patches_buffer_1@.wf(),
                self.lod.patches_buffer_0@.cap == cap,
                self.lod.patches_buffer_1@.cap == cap,
                self.lod.force_render_uniform.flag == 0,
                round % 2 == 0 ==> self.lod.patches_buffer_0@ == frame_passes(
                    d0,
                    start,
                    round as nat,
                ).queue && self.lod.indirect_compute_buffer_0
                    == DispatchIndirectArgs::sized_for(
                    frame_passes(d0, start, round as nat).queue.clamped_len(),
                ),
                round % 2 == 1 ==> self.lod.patches_buffer_1@ == frame_passes(
                    d0,
                    start,
                    round as nat,
                ).queue && self.lod.indirect_compute_buffer_1
                    == DispatchIndirectArgs::sized_for(
                    frame_passes(d0, start, round as nat).queue.clamped_len(),
                ),
                self.render.buckets() == frame_passes(d0, start, round as nat).buckets,
                self.render.wf(),
                self.render.cap() == cap,
                self.render.draws() == old(self).render.draws(),
            decreases ROUNDS - round,
        {
            proof {
                lemma_frame_state_wf(d0, instance_count as int, cap, round as nat);
                assert((round as int) * cap + cap <= 8 * MAX_PATCH_COUNT) by (nonlinear_arith)
                    requires
                        round < 8,
                        0 <= cap <= MAX_PATCH_COUNT as int,
                        MAX_PATCH_COUNT == 524288,
                ;
            }
            let is_last = round == ROUNDS - 1;
            if is_last {
                self.lod.force_render_uniform = compute_patches.force_render_true;
            }
            let force = self.lod.force_render_uniform.flag != 0;
            if round % 2 == 0 {
                self.lod.patches_buffer_1.reset_from(&compute_patches.patches_buffer_reset);
                self.lod.indirect_compute_buffer_1 = compute_patches.indirect_compute_buffer_reset;
                subdivision_pass(
                    decider,
                    force,
                    &self.lod.patches_buffer_0,
                    &mut self.lod.patches_buffer_1,
                    &mut self.render,
                );
                self.lod.indirect_compute_buffer_1 = DispatchIndirectArgs::derive(
                    &self.lod.patches_buffer_1,
                );
            } else {
                self.lod.patches_buffer_0.reset_from(&compute_patches.patches_buffer_reset);
                self.lod.indirect_compute_buffer_0 = compute_patches.indirect_compute_buffer_reset;
                subdivision_pass(
                    decider,
                    force,
                    &self.lod.patches_buffer_1,
                    &mut self.lod.patches_buffer_0,
                    &mut self.render,
                );
                self.lod.indirect_compute_buffer_0 = DispatchIndirectArgs::derive(
                    &self.lod.patches_buffer_0,
                );
            }
            if is_last {
                self.lod.force_render_uniform = compute_patches.force_render_false;
            }
            proof {
                let pre = frame_passes(d0, start, round as nat);
                lemma_stage_run_invariants(
                    d0,
                    force,
                    StageModel { to: QueueModel::empty(cap), buckets: pre.buckets },
                    pre.queue.items,
                );
                assert(frame_passes(d0, start, (round + 1) as nat) == frame_pass(
                    d0,
                    (round + 1) as nat == ROUNDS as nat,
                    pre,
                ));
                assert(force == ((round + 1) as nat == ROUNDS as nat));
            }
            round = round + 1;
            proof {
                assert(self.render.buckets() =~= frame_passes(d0, start, round as nat).buckets);
            }
        }
        proof {
            lemma_frame_state_wf(d0, instance_count as int, cap, ROUNDS as nat);
        }

        // Derive the draw arguments once, after the final round.
        self.render.derive_draw_args();
        round
    }
}

} // verus!
