//! Pipeline-wide guarantees, stated over the frame model that
//! `ParametricModel::lod_stage` is proved to compute.

use vstd::prelude::*;
use crate::{MAX_PATCH_COUNT, NUM_BUCKETS, ROUNDS};
use crate::decider::SubdivisionDecider;
use crate::lod::{
    PassState, clamp_to_cap, frame_pass, frame_passes, frame_start, lemma_frame_state_wf,
    seed_items,
};
use crate::patch::EncodedPatch;
use crate::queue::QueueModel;
use crate::render_buffers::bucket_for_depth;
use crate::stage::{
    StageModel, leaf_count, lemma_stage_run_all_leaves, lemma_stage_run_counts,
    lemma_stage_run_no_leaves, sum_clamped, sum_raw,
};

verus! {

/// Total number of leaves the first `n` rounds of a frame emit, surviving
/// or dropped.
pub open spec fn frame_leaf_total<D: SubdivisionDecider>(d: D, s: PassState, n: nat) -> int
    decreases n,
{
    if n == 0 {
        0int
    } else {
        frame_leaf_total(d, s, (n - 1) as nat) + leaf_count(
            d,
            n == ROUNDS as nat,
            frame_passes(d, s, (n - 1) as nat).queue.items,
        )
    }
}

/// After any number of rounds, the queue's clamped length lies between
/// zero and the capacity, and the stored patches never outgrow the
/// capacity — the raw counter alone may exceed it. The same holds of every
/// bucket.
pub proof fn lemma_queue_length_clamped<D: SubdivisionDecider>(
    d: D,
    instance_count: int,
    cap: int,
    n: nat,
)
    requires
        0 <= instance_count <= u32::MAX,
        0 <= cap <= MAX_PATCH_COUNT as int,
        n <= ROUNDS as nat,
    ensures
        0 <= frame_passes(d, frame_start(instance_count, cap), n).queue.clamped_len() <= cap,
        frame_passes(d, frame_start(instance_count, cap), n).queue.items.len() <= cap,
        forall|b: int|
            0 <= b < NUM_BUCKETS as int ==> 0 <= (#[trigger] frame_passes(
                d,
                frame_start(instance_count, cap),
                n,
            ).buckets[b]).clamped_len() <= cap && frame_passes(
                d,
                frame_start(instance_count, cap),
                n,
            ).buckets[b].items.len() <= cap,
    decreases n,
{
    lemma_frame_state_wf(d, instance_count, cap, n);
}

/// A patch surviving `n` rounds encodes depth exactly `n`; a leaf banked
/// in any bucket was emitted in an earlier round and sits strictly below
/// the round budget, which is also the depth limit.
pub proof fn lemma_depth_tracks_rounds<D: SubdivisionDecider>(
    d: D,
    instance_count: int,
    cap: int,
    n: nat,
)
    requires
        0 <= instance_count <= u32::MAX,
        0 <= cap <= MAX_PATCH_COUNT as int,
        n <= ROUNDS as nat,
    ensures
        frame_passes(d, frame_start(instance_count, cap), n).queue.all_at_depth(n as int),
        forall|b: int, i: int|
            0 <= b < NUM_BUCKETS as int && 0 <= i < frame_passes(
                d,
                frame_start(instance_count, cap),
                n,
            ).buckets[b].items.len() ==> 0 <= (#[trigger] frame_passes(
                d,
                frame_start(instance_count, cap),
                n,
            ).buckets[b].items[i]).depth() < n,
        forall|b: int, i: int|
            0 <= b < NUM_BUCKETS as int && 0 <= i < frame_passes(
                d,
                frame_start(instance_count, cap),
                n,
            ).buckets[b].items.len() ==> (#[trigger] frame_passes(
                d,
                frame_start(instance_count, cap),
                n,
            ).buckets[b].items[i]).depth() < ROUNDS,
{
    lemma_frame_state_wf(d, instance_count, cap, n);
    assert forall|b: int, i: int|
        0 <= b < NUM_BUCKETS as int && 0 <= i < frame_passes(
            d,
            frame_start(instance_count, cap),
            n,
        ).buckets[b].items.len() implies 0 <= (#[trigger] frame_passes(
        d,
        frame_start(instance_count, cap),
        n,
    ).buckets[b].items[i]).depth() < n by {
        let p = frame_passes(d, frame_start(instance_count, cap), n).buckets[b].items[i];
        assert(p.wf());
        crate::patch::lemma_bit_len_positive(p.u as nat);
    }
}

/// Bucket selection is deterministic in a leaf's depth: after any number
/// of rounds, every patch stored in a bucket is in exactly the bucket its
/// decoded depth maps to, so a draw of that bucket renders geometry of the
/// matching granularity.
pub proof fn lemma_bucket_matches_depth<D: SubdivisionDecider>(
    d: D,
    instance_count: int,
    cap: int,
    n: nat,
)
    requires
        0 <= instance_count <= u32::MAX,
        0 <= cap <= MAX_PATCH_COUNT as int,
        n <= ROUNDS as nat,
    ensures
        forall|b: int, i: int|
            0 <= b < NUM_BUCKETS as int && 0 <= i < frame_passes(
                d,
                frame_start(instance_count, cap),
                n,
            ).buckets[b].items.len() ==> bucket_for_depth(
                (#[trigger] frame_passes(
                    d,
                    frame_start(instance_count, cap),
                    n,
                ).buckets[b].items[i]).depth(),
            ) == b,
{
    lemma_frame_state_wf(d, instance_count, cap, n);
}

/// With a decider that accepts everything — an arbitrarily large threshold
/// factor — every root patch becomes a leaf in the very first round: after
/// any later point of the frame the queue is empty, the bucket of depth
/// zero holds exactly the seeded roots, and no other bucket ever receives
/// an entry.
pub proof fn lemma_accept_all_leaves_at_round_zero<D: SubdivisionDecider>(
    d: D,
    instance_count: int,
    cap: int,
    n: nat,
)
    requires
        forall|p: EncodedPatch| #[trigger] d.within_threshold_spec(p),
        0 <= instance_count <= u32::MAX,
        0 <= cap <= MAX_PATCH_COUNT as int,
        1 <= n <= ROUNDS as nat,
    ensures
        frame_passes(d, frame_start(instance_count, cap), n).queue.raw == 0,
        frame_passes(d, frame_start(instance_count, cap), n).queue.items.len() == 0,
        frame_passes(d, frame_start(instance_count, cap), n).buckets[bucket_for_depth(0)].raw
            == clamp_to_cap(instance_count, cap),
        frame_passes(d, frame_start(instance_count, cap), n).buckets[bucket_for_depth(0)].items
            == seed_items(instance_count, cap),
        forall|b: int|
            0 <= b < NUM_BUCKETS as int && b != bucket_for_depth(0)
                ==> #[trigger] frame_passes(d, frame_start(instance_count, cap), n).buckets[b]
                == QueueModel::empty(cap),
    decreases n,
{
    let start = frame_start(instance_count, cap);
    if n == 1 {
        lemma_frame_state_wf(d, instance_count, cap, 0);
        let s = StageModel { to: QueueModel::empty(cap), buckets: start.buckets };
        lemma_stage_run_all_leaves(d, 1nat == ROUNDS as nat, s, start.queue.items, 0);
        assert(QueueModel::empty(cap).items + start.queue.items =~= seed_items(
            instance_count,
            cap,
        ));
    } else {
        lemma_accept_all_leaves_at_round_zero(d, instance_count, cap, (n - 1) as nat);
        let prev = frame_passes(d, start, (n - 1) as nat);
        assert(prev.queue.items =~= Seq::<EncodedPatch>::empty());
        assert(frame_passes(d, start, n) == frame_pass(d, n == ROUNDS as nat, prev));
    }
}

/// With a decider that accepts nothing — a vanishing threshold factor —
/// every patch subdivides every round until the forced final round: no
/// bucket receives anything before that round, and afterwards the single
/// deepest bucket holds exactly the last round's surviving patches, all at
/// the deepest depth a frame can produce.
pub proof fn lemma_accept_none_subdivides_until_forced<D: SubdivisionDecider>(
    d: D,
    instance_count: int,
    cap: int,
    n: nat,
)
    requires
        forall|p: EncodedPatch| !(#[trigger] d.within_threshold_spec(p)),
        0 <= instance_count <= u32::MAX,
        0 <= cap <= MAX_PATCH_COUNT as int,
        n <= ROUNDS as nat,
    ensures
        n < ROUNDS as nat ==> forall|b: int|
            0 <= b < NUM_BUCKETS as int ==> #[trigger] frame_passes(
                d,
                frame_start(instance_count, cap),
                n,
            ).buckets[b] == QueueModel::empty(cap),
        0 < n < ROUNDS as nat ==> frame_passes(d, frame_start(instance_count, cap), n).queue.raw
            == 4 * frame_passes(
            d,
            frame_start(instance_count, cap),
            (n - 1) as nat,
        ).queue.items.len(),
        n == ROUNDS as nat ==> frame_passes(
            d,
            frame_start(instance_count, cap),
            n,
        ).buckets[bucket_for_depth(ROUNDS - 1)].raw == frame_passes(
            d,
            frame_start(instance_count, cap),
            (ROUNDS - 1) as nat,
        ).queue.items.len(),
        n == ROUNDS as nat ==> frame_passes(
            d,
            frame_start(instance_count, cap),
            n,
        ).buckets[bucket_for_depth(ROUNDS - 1)].items == frame_passes(
            d,
            frame_start(instance_count, cap),
            (ROUNDS - 1) as nat,
        ).queue.items,
        n == ROUNDS as nat ==> forall|b: int|
            0 <= b < NUM_BUCKETS as int && b != bucket_for_depth(ROUNDS - 1)
                ==> #[trigger] frame_passes(d, frame_start(instance_count, cap), n).buckets[b]
                == QueueModel::empty(cap),
        n == ROUNDS as nat ==> forall|i: int|
            0 <= i < frame_passes(
                d,
                frame_start(instance_count, cap),
                n,
            ).buckets[bucket_for_depth(ROUNDS - 1)].items.len() ==> (#[trigger] frame_passes(
                d,
                frame_start(instance_count, cap),
                n,
            ).buckets[bucket_for_depth(ROUNDS - 1)].items[i]).depth() == ROUNDS - 1,
    decreases n,
{
    let start = frame_start(instance_count, cap);
    if n > 0 {
        lemma_accept_none_subdivides_until_forced(d, instance_count, cap, (n - 1) as nat);
        lemma_frame_state_wf(d, instance_count, cap, (n - 1) as nat);
        let prev = frame_passes(d, start, (n - 1) as nat);
        let force = n == ROUNDS as nat;
        let s = StageModel { to: QueueModel::empty(cap), buckets: prev.buckets };
        assert(frame_passes(d, start, n) == frame_pass(d, force, prev));
        if n < ROUNDS as nat {
            assert forall|j: int| 0 <= j < prev.queue.items.len() implies !crate::stage::is_leaf(
                d,
                force,
                prev.queue.items[j],
            ) by {
                assert(prev.queue.items[j].depth() == n - 1);
            }
            lemma_stage_run_no_leaves(d, force, s, prev.queue.items);
        } else {
            lemma_stage_run_all_leaves(d, force, s, prev.queue.items, (ROUNDS - 1) as int);
            assert(QueueModel::empty(cap).items + prev.queue.items =~= prev.queue.items);
        }
    }
}

/// Every bucket's raw counter counts exactly the leaves routed to it, so
/// summed over the buckets the counters account for every leaf any round
/// produced; the occupancies the draw arguments are derived from are these
/// counters, each clamped to its bucket's capacity.
pub proof fn lemma_occupancy_accounts_for_leaves<D: SubdivisionDecider>(
    d: D,
    instance_count: int,
    cap: int,
    n: nat,
)
    requires
        0 <= instance_count <= u32::MAX,
        0 <= cap <= MAX_PATCH_COUNT as int,
        n <= ROUNDS as nat,
    ensures
        sum_raw(frame_passes(d, frame_start(instance_count, cap), n).buckets) == frame_leaf_total(
            d,
            frame_start(instance_count, cap),
            n,
        ),
        forall|b: int|
            0 <= b < NUM_BUCKETS as int ==> (#[trigger] frame_passes(
                d,
                frame_start(instance_count, cap),
                n,
            ).buckets[b]).clamped_len() == clamp_to_cap(
                frame_passes(d, frame_start(instance_count, cap), n).buckets[b].raw,
                cap,
            ),
        (forall|b: int|
            0 <= b < NUM_BUCKETS as int ==> (#[trigger] frame_passes(
                d,
                frame_start(instance_count, cap),
                n,
            ).buckets[b]).raw <= cap) ==> sum_clamped(
            frame_passes(d, frame_start(instance_count, cap), n).buckets,
        ) == frame_leaf_total(d, frame_start(instance_count, cap), n),
    decreases n,
{
    let start = frame_start(instance_count, cap);
    lemma_frame_state_wf(d, instance_count, cap, n);
    let fs = frame_passes(d, start, n);
    if forall|b: int| 0 <= b < NUM_BUCKETS as int ==> (#[trigger] fs.buckets[b]).raw <= cap {
        lemma_sum_clamped_eq_raw(fs.buckets);
    }
    if n == 0 {
        lemma_sum_raw_of_empties(start.buckets);
    } else {
        lemma_occupancy_accounts_for_leaves(d, instance_count, cap, (n - 1) as nat);
        lemma_frame_state_wf(d, instance_count, cap, (n - 1) as nat);
        let prev = frame_passes(d, start, (n - 1) as nat);
        let force = n == ROUNDS as nat;
        let s = StageModel { to: QueueModel::empty(cap), buckets: prev.buckets };
        lemma_stage_run_counts(d, force, s, prev.queue.items);
        assert(frame_passes(d, start, n) == frame_pass(d, force, prev));
    }
}

/// While no queue of a family has saturated, the clamp is the identity and
/// the occupancies sum to the same total as the raw counters.
proof fn lemma_sum_clamped_eq_raw(bs: Seq<QueueModel>)
    requires
        forall|b: int| 0 <= b < bs.len() ==> (#[trigger] bs[b]).raw <= bs[b].cap,
    ensures
        sum_clamped(bs) == sum_raw(bs),
    decreases bs.len(),
{
    if bs.len() > 0 {
        lemma_sum_clamped_eq_raw(bs.drop_last());
    }
}

/// A family of queues whose raw counters are all zero sums to zero.
proof fn lemma_sum_raw_of_empties(bs: Seq<QueueModel>)
    requires
        forall|b: int| 0 <= b < bs.len() ==> (#[trigger] bs[b]).raw == 0,
    ensures
        sum_raw(bs) == 0,
    decreases bs.len(),
{
    if bs.len() > 0 {
        lemma_sum_raw_of_empties(bs.drop_last());
    }
}

} // verus!
