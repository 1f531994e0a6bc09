//! The subdivision stage: one parallel pass over one queue's contents.
//!
//! Each patch drawn from the source queue either becomes a leaf — recorded
//! in the bucket matching its depth — or is replaced by its four quadrant
//! children in the destination queue. A patch becomes a leaf when the frame
//! is in its forced final round, when it already sits at the depth limit, or
//! when the decider reports its screen-space error at or below the accept
//! threshold.
//!
//! On the device the lanes of one pass run in no guaranteed order; the only
//! primitive they share is the bounded append. The order of appends is
//! irrelevant to everything the pipeline relies on (counters, occupancies,
//! depths), and this model fixes one order — queue order, children in
//! quadrant order — to make the contracts exact.

use vstd::prelude::*;
use crate::{MAX_DEPTH, NUM_BUCKETS};
use crate::decider::SubdivisionDecider;
use crate::patch::EncodedPatch;
use crate::queue::{PatchQueue, QueueModel};
use crate::render_buffers::{ParametricModelRender, bucket_for_depth, bucket_index_for_depth};

verus! {

/// State a pass acts on: the destination queue and the five buckets.
pub ghost struct StageModel {
    pub to: QueueModel,
    pub buckets: Seq<QueueModel>,
}

/// Whether a patch's refinement stops here.
pub open spec fn is_leaf<D: SubdivisionDecider>(d: D, force: bool, p: EncodedPatch) -> bool {
    ||| force
    ||| p.depth() >= MAX_DEPTH
    ||| d.within_threshold_spec(p)
}

/// The fate of one patch: a leaf lands in the bucket of its depth, anything
/// else appends its four children — in quadrant order, lower `u` bit first —
/// to the destination queue.
pub open spec fn stage_step<D: SubdivisionDecider>(
    d: D,
    force: bool,
    s: StageModel,
    p: EncodedPatch,
) -> StageModel {
    if is_leaf(d, force, p) {
        let b = bucket_for_depth(p.depth());
        StageModel { to: s.to, buckets: s.buckets.update(b, s.buckets[b].append(p)) }
    } else {
        StageModel {
            to: s.to.append(p.child_spec(false, false)).append(p.child_spec(true, false)).append(
                p.child_spec(false, true),
            ).append(p.child_spec(true, true)),
            buckets: s.buckets,
        }
    }
}

/// One whole pass over a sequence of patches, in queue order.
pub open spec fn stage_run<D: SubdivisionDecider>(
    d: D,
    force: bool,
    s: StageModel,
    ps: Seq<EncodedPatch>,
) -> StageModel
    decreases ps.len(),
{
    if ps.len() == 0 {
        s
    } else {
        stage_step(d, force, stage_run(d, force, s, ps.drop_last()), ps.last())
    }
}

/// Number of patches of `ps` that the pass turns into leaves.
pub open spec fn leaf_count<D: SubdivisionDecider>(
    d: D,
    force: bool,
    ps: Seq<EncodedPatch>,
) -> int
    decreases ps.len(),
{
    if ps.len() == 0 {
        0int
    } else {
        leaf_count(d, force, ps.drop_last()) + if is_leaf(d, force, ps.last()) {
            1int
        } else {
            0int
        }
    }
}

/// Sum of the raw append counters of a bucket family: every leaf ever
/// emitted to them, surviving or dropped.
pub open spec fn sum_raw(bs: Seq<QueueModel>) -> int
    decreases bs.len(),
{
    if bs.len() == 0 {
        0int
    } else {
        sum_raw(bs.drop_last()) + bs.last().raw
    }
}

/// Sum of the clamped lengths of a bucket family: the occupancies a
/// consumer may act on.
pub open spec fn sum_clamped(bs: Seq<QueueModel>) -> int
    decreases bs.len(),
{
    if bs.len() == 0 {
        0int
    } else {
        sum_clamped(bs.drop_last()) + bs.last().clamped_len()
    }
}

/// The executable subdivision pass. Reads every stored patch of `from` and
/// leaves the destination queue and buckets exactly as the functional model
/// of the pass says; draw arguments are untouched.
pub fn subdivision_pass<D: SubdivisionDecider>(
    decider: &D,
    force: bool,
    from: &PatchQueue,
    to: &mut PatchQueue,
    render: &mut ParametricModelRender,
)
    requires
        from@.wf(),
        from@.all_wf(),
        old(to)@.wf(),
        old(render).wf(),
        old(to)@.raw + 4 * from@.items.len() <= u32::MAX,
        forall|b: int|
            0 <= b < NUM_BUCKETS as int ==> #[trigger] old(render).buckets()[b].raw
                + from@.items.len() <= u32::MAX,
    ensures
        final(to)@ == stage_run(
            *decider,
            force,
            StageModel { to: old(to)@, buckets: old(render).buckets() },
            from@.items,
        ).to,
        final(render).buckets() =~= stage_run(
            *decider,
            force,
            StageModel { to: old(to)@, buckets: old(render).buckets() },
            from@.items,
        ).buckets,
        final(to)@.wf(),
        final(render).wf(),
        final(render).cap() == old(render).cap(),
        final(render).draws() == old(render).draws(),
{
    let ghost init = StageModel { to: old(to)@, buckets: old(render).buckets() };
    let ghost items = from@.items;
    let n: usize = from.len_clamped() as usize;
    let mut i: usize = 0;
    proof {
        assert(items.take(0) =~= Seq::<EncodedPatch>::empty());
    }
    while i < n
        invariant
            i <= n,
            n == from@.items.len(),
            items == from@.items,
            from@.wf(),
            from@.all_wf(),
            to@ == stage_run(*decider, force, init, items.take(i as int)).to,
            render.buckets() =~= stage_run(*decider, force, init, items.take(i as int)).buckets,
            to@.wf(),
            render.wf(),
            render.cap() == old(render).cap(),
            render.draws() == old(render).draws(),
            init == (StageModel { to: old(to)@, buckets: old(render).buckets() }),
            init.buckets.len() == NUM_BUCKETS as int,
            to@.raw <= init.to.raw + 4 * i,
            init.to.raw + 4 * n <= u32::MAX,
            forall|b: int|
                0 <= b < NUM_BUCKETS as int ==> #[trigger] render.buckets()[b].raw
                    <= init.buckets[b].raw + i,
            forall|b: int|
                0 <= b < NUM_BUCKETS as int ==> #[trigger] init.buckets[b].raw + n <= u32::MAX,
        decreases n - i,
    {
        let p = *from.get(i);
        let ghost pre = stage_run(*decider, force, init, items.take(i as int));
        let depth = p.decode_depth();
        let leaf = force || depth >= MAX_DEPTH || decider.within_threshold(&p);
        proof {
            assert(p.wf());
            assert(leaf == is_leaf(*decider, force, p));
        }
        if leaf {
            let b = bucket_index_for_depth(depth);
            render.append_leaf(b, p);
        } else {
            let c00 = p.child(false, false);
            let c10 = p.child(true, false);
            let c01 = p.child(false, true);
            let c11 = p.child(true, true);
            to.try_append(c00);
            to.try_append(c10);
            to.try_append(c01);
            to.try_append(c11);
        }
        i = i + 1;
        proof {
            assert(items.take(i as int).drop_last() =~= items.take(i as int - 1));
            assert(items.take(i as int).last() == p);
            assert(stage_run(*decider, force, init, items.take(i as int)) == stage_step(
                *decider,
                force,
                pre,
                p,
            ));
        }
    }
    proof {
        assert(items.take(n as int) =~= items);
    }
}

/// Structural facts of one pass: capacities survive, well-formed queue
/// states stay well formed, and the raw counters grow by at most four per
/// input patch on the destination and at most one per input patch per
/// bucket.
pub proof fn lemma_stage_run_invariants<D: SubdivisionDecider>(
    d: D,
    force: bool,
    s: StageModel,
    ps: Seq<EncodedPatch>,
)
    requires
        s.buckets.len() == NUM_BUCKETS as int,
        s.to.wf(),
        forall|b: int| 0 <= b < NUM_BUCKETS as int ==> (#[trigger] s.buckets[b]).wf(),
    ensures
        stage_run(d, force, s, ps).buckets.len() == NUM_BUCKETS as int,
        stage_run(d, force, s, ps).to.wf(),
        stage_run(d, force, s, ps).to.cap == s.to.cap,
        s.to.raw <= stage_run(d, force, s, ps).to.raw <= s.to.raw + 4 * ps.len(),
        forall|b: int|
            0 <= b < NUM_BUCKETS as int ==> (#[trigger] stage_run(d, force, s, ps).buckets[b]).wf(),
        forall|b: int|
            0 <= b < NUM_BUCKETS as int ==> (#[trigger] stage_run(d, force, s, ps).buckets[b]).cap
                == s.buckets[b].cap,
        forall|b: int|
            0 <= b < NUM_BUCKETS as int ==> s.buckets[b].raw <= (#[trigger] stage_run(
                d,
                force,
                s,
                ps,
            ).buckets[b]).raw <= s.buckets[b].raw + ps.len(),
    decreases ps.len(),
{
    if ps.len() > 0 {
        lemma_stage_run_invariants(d, force, s, ps.drop_last());
    }
}

/// What a pass writes, when every input patch is well formed and sits at
/// one common depth `k`: both destinations only grow, every new patch in
/// the destination queue is a well-formed child at depth `k + 1`, and every
/// new bucket entry is one of the inputs, at depth `k`.
pub proof fn lemma_stage_run_items<D: SubdivisionDecider>(
    d: D,
    force: bool,
    s: StageModel,
    ps: Seq<EncodedPatch>,
    k: int,
)
    requires
        s.buckets.len() == NUM_BUCKETS as int,
        forall|j: int|
            0 <= j < ps.len() ==> (#[trigger] ps[j]).wf() && ps[j].depth() == k,
    ensures
        stage_run(d, force, s, ps).to.items.len() >= s.to.items.len(),
        forall|i: int|
            0 <= i < s.to.items.len() ==> #[trigger] stage_run(d, force, s, ps).to.items[i]
                == s.to.items[i],
        forall|i: int|
            s.to.items.len() <= i < stage_run(d, force, s, ps).to.items.len()
                ==> (#[trigger] stage_run(d, force, s, ps).to.items[i]).wf() && stage_run(
                d,
                force,
                s,
                ps,
            ).to.items[i].depth() == k + 1,
        forall|b: int|
            0 <= b < NUM_BUCKETS as int ==> (#[trigger] stage_run(d, force, s, ps).buckets[b]).items.len()
                >= s.buckets[b].items.len(),
        forall|b: int, i: int|
            0 <= b < NUM_BUCKETS as int && 0 <= i < s.buckets[b].items.len()
                ==> #[trigger] stage_run(d, force, s, ps).buckets[b].items[i]
                == s.buckets[b].items[i],
        forall|b: int, i: int|
            0 <= b < NUM_BUCKETS as int && s.buckets[b].items.len() <= i < stage_run(
                d,
                force,
                s,
                ps,
            ).buckets[b].items.len() ==> (#[trigger] stage_run(d, force, s, ps).buckets[b].items[i]).wf()
                && stage_run(d, force, s, ps).buckets[b].items[i].depth() == k
                && bucket_for_depth(stage_run(d, force, s, ps).buckets[b].items[i].depth()) == b,
    decreases ps.len(),
{
    if ps.len() > 0 {
        lemma_stage_run_items(d, force, s, ps.drop_last(), k);
        lemma_stage_run_invariants_len(d, force, s, ps.drop_last());
        let p = ps.last();
        assert(p == ps[ps.len() - 1]);
        assert(p.wf() && p.depth() == k);
        if !is_leaf(d, force, p) {
            p.lemma_child_wf(false, false);
            p.lemma_child_wf(true, false);
            p.lemma_child_wf(false, true);
            p.lemma_child_wf(true, true);
        }
    }
}

/// Updating one bucket changes the raw-counter sum by exactly the change
/// of that bucket.
pub proof fn lemma_sum_raw_update(bs: Seq<QueueModel>, b: int, q: QueueModel)
    requires
        0 <= b < bs.len(),
    ensures
        sum_raw(bs.update(b, q)) == sum_raw(bs) - bs[b].raw + q.raw,
    decreases bs.len(),
{
    if b == bs.len() - 1 {
        assert(bs.update(b, q).drop_last() =~= bs.drop_last());
    } else {
        assert(bs.update(b, q).drop_last() =~= bs.drop_last().update(b, q));
        lemma_sum_raw_update(bs.drop_last(), b, q);
    }
}

/// The pass's accounting: every input patch either becomes exactly one
/// bucket append or exactly four destination appends, so the counters add
/// up whatever is dropped by saturation.
pub proof fn lemma_stage_run_counts<D: SubdivisionDecider>(
    d: D,
    force: bool,
    s: StageModel,
    ps: Seq<EncodedPatch>,
)
    requires
        s.buckets.len() == NUM_BUCKETS as int,
    ensures
        0 <= leaf_count(d, force, ps) <= ps.len(),
        stage_run(d, force, s, ps).to.raw == s.to.raw + 4 * (ps.len() - leaf_count(d, force, ps)),
        sum_raw(stage_run(d, force, s, ps).buckets) == sum_raw(s.buckets) + leaf_count(
            d,
            force,
            ps,
        ),
    decreases ps.len(),
{
    if ps.len() > 0 {
        lemma_stage_run_counts(d, force, s, ps.drop_last());
        let p = ps.last();
        let pre = stage_run(d, force, s, ps.drop_last());
        if is_leaf(d, force, p) {
            let b = bucket_for_depth(p.depth());
            lemma_stage_run_invariants_len(d, force, s, ps.drop_last());
            lemma_sum_raw_update(pre.buckets, b, pre.buckets[b].append(p));
        }
    }
}

/// The bucket family keeps its size through a pass, with no other
/// precondition.
proof fn lemma_stage_run_invariants_len<D: SubdivisionDecider>(
    d: D,
    force: bool,
    s: StageModel,
    ps: Seq<EncodedPatch>,
)
    requires
        s.buckets.len() == NUM_BUCKETS as int,
    ensures
        stage_run(d, force, s, ps).buckets.len() == NUM_BUCKETS as int,
    decreases ps.len(),
{
    if ps.len() > 0 {
        lemma_stage_run_invariants_len(d, force, s, ps.drop_last());
    }
}

/// A pass whose every input is a leaf — all well formed at one depth `k` —
/// writes nothing to the destination queue and appends the inputs, in
/// order, to the single bucket of depth `k`; all other buckets are
/// untouched. When the bucket has room for all of them, its contents are
/// exactly the old contents followed by the inputs.
pub proof fn lemma_stage_run_all_leaves<D: SubdivisionDecider>(
    d: D,
    force: bool,
    s: StageModel,
    ps: Seq<EncodedPatch>,
    k: int,
)
    requires
        s.buckets.len() == NUM_BUCKETS as int,
        forall|j: int|
            0 <= j < ps.len() ==> (#[trigger] ps[j]).wf() && ps[j].depth() == k && is_leaf(
                d,
                force,
                ps[j],
            ),
    ensures
        stage_run(d, force, s, ps).to == s.to,
        forall|b: int|
            0 <= b < NUM_BUCKETS as int && b != bucket_for_depth(k)
                ==> #[trigger] stage_run(d, force, s, ps).buckets[b] == s.buckets[b],
        stage_run(d, force, s, ps).buckets[bucket_for_depth(k)].raw == s.buckets[bucket_for_depth(
            k,
        )].raw + ps.len(),
        stage_run(d, force, s, ps).buckets[bucket_for_depth(k)].cap == s.buckets[bucket_for_depth(
            k,
        )].cap,
        s.buckets[bucket_for_depth(k)].raw + ps.len() <= s.buckets[bucket_for_depth(k)].cap
            ==> stage_run(d, force, s, ps).buckets[bucket_for_depth(k)].items
            == s.buckets[bucket_for_depth(k)].items + ps,
    decreases ps.len(),
{
    if ps.len() == 0 {
        assert(s.buckets[bucket_for_depth(k)].items + ps =~= s.buckets[bucket_for_depth(
            k,
        )].items);
    } else {
        lemma_stage_run_all_leaves(d, force, s, ps.drop_last(), k);
        lemma_stage_run_invariants_len(d, force, s, ps.drop_last());
        let p = ps.last();
        let bk = bucket_for_depth(k);
        let pre = stage_run(d, force, s, ps.drop_last());
        assert(p == ps[ps.len() - 1]);
        assert(is_leaf(d, force, p) && p.depth() == k);
        assert(bucket_for_depth(p.depth()) == bk);
        if s.buckets[bk].raw + ps.len() <= s.buckets[bk].cap {
            assert(s.buckets[bk].items + ps.drop_last() + seq![p] =~= s.buckets[bk].items + ps);
        }
    }
}

/// A pass whose no input is a leaf touches no bucket and reserves exactly
/// four destination slots per input patch.
pub proof fn lemma_stage_run_no_leaves<D: SubdivisionDecider>(
    d: D,
    force: bool,
    s: StageModel,
    ps: Seq<EncodedPatch>,
)
    requires
        forall|j: int| 0 <= j < ps.len() ==> !is_leaf(d, force, #[trigger] ps[j]),
    ensures
        stage_run(d, force, s, ps).buckets == s.buckets,
        stage_run(d, force, s, ps).to.raw == s.to.raw + 4 * ps.len(),
        stage_run(d, force, s, ps).to.cap == s.to.cap,
    decreases ps.len(),
{
    if ps.len() > 0 {
        lemma_stage_run_no_leaves(d, force, s, ps.drop_last());
    }
}

} // verus!
