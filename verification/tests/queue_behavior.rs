use math3render::dispatch::DispatchIndirectArgs;
use math3render::patch::EncodedPatch;
use math3render::queue::PatchQueue;
use math3render::render_buffers::{ParametricModelRender, bucket_index_for_depth};

#[test]
fn append_within_capacity_is_stored() {
    let mut q = PatchQueue::new(4);
    for i in 0..3u32 {
        assert!(q.try_append(EncodedPatch::root(i)));
    }
    assert_eq!(q.len_clamped(), 3);
    assert_eq!(q.patches_length, 3);
    assert_eq!(q.get(2).instance, 2);
}

#[test]
fn append_past_capacity_counts_but_drops() {
    let mut q = PatchQueue::new(2);
    assert!(q.try_append(EncodedPatch::root(0)));
    assert!(q.try_append(EncodedPatch::root(1)));
    assert!(!q.try_append(EncodedPatch::root(2)));
    assert_eq!(q.patches_length, 3);
    assert_eq!(q.len_clamped(), 2);
    assert_eq!(q.patches.len(), 2);
}

#[test]
fn reset_restores_empty_at_same_capacity() {
    let mut q = PatchQueue::new(2);
    q.try_append(EncodedPatch::root(0));
    q.try_append(EncodedPatch::root(1));
    q.try_append(EncodedPatch::root(2));
    q.reset();
    assert_eq!(q.patches_length, 0);
    assert_eq!(q.len_clamped(), 0);
    assert_eq!(q.patches_capacity, 2);
}

#[test]
fn dispatch_template_is_zero_work_unit_extent() {
    let a = DispatchIndirectArgs::reset_template();
    assert_eq!((a.x, a.y, a.z), (0, 1, 1));
}

#[test]
fn dispatch_derivation_clamps_to_capacity() {
    let mut q = PatchQueue::new(2);
    q.try_append(EncodedPatch::root(0));
    q.try_append(EncodedPatch::root(1));
    q.try_append(EncodedPatch::root(2));
    let a = DispatchIndirectArgs::derive(&q);
    assert_eq!((a.x, a.y, a.z), (2, 1, 1));
}

#[test]
fn bucket_selection_is_fixed_by_depth() {
    assert_eq!(bucket_index_for_depth(0), 4);
    assert_eq!(bucket_index_for_depth(1), 3);
    assert_eq!(bucket_index_for_depth(2), 2);
    assert_eq!(bucket_index_for_depth(3), 1);
    assert_eq!(bucket_index_for_depth(4), 0);
    assert_eq!(bucket_index_for_depth(7), 0);
    assert_eq!(bucket_index_for_depth(8), 0);
}

#[test]
fn draw_args_carry_mesh_index_counts() {
    let r = ParametricModelRender::new(16);
    let expected = [6u32, 24, 96, 384, 1536];
    assert_eq!(r.indirect_draw.len(), 5);
    for b in 0..5 {
        assert_eq!(r.indirect_draw[b].index_count, expected[b]);
        assert_eq!(r.indirect_draw[b].instance_count, 0);
        assert_eq!(r.indirect_draw[b].first_index, 0);
        assert_eq!(r.indirect_draw[b].base_vertex, 0);
        assert_eq!(r.indirect_draw[b].first_instance, 0);
    }
}

#[test]
fn derive_draw_args_copies_clamped_occupancy() {
    let mut r = ParametricModelRender::new(2);
    r.append_leaf(3, EncodedPatch::root(0));
    r.append_leaf(3, EncodedPatch::root(1));
    r.append_leaf(3, EncodedPatch::root(2));
    r.append_leaf(1, EncodedPatch::root(3));
    r.derive_draw_args();
    assert_eq!(r.indirect_draw[0].instance_count, 0);
    assert_eq!(r.indirect_draw[1].instance_count, 1);
    assert_eq!(r.indirect_draw[2].instance_count, 0);
    assert_eq!(r.indirect_draw[3].instance_count, 2);
    assert_eq!(r.indirect_draw[4].instance_count, 0);
    assert_eq!(r.indirect_draw[3].index_count, 384);
}

#[test]
fn test_macro() {
    let q = PatchQueue {
        patches_length: 0,
        patches_capacity: 33,
        patches: vec![],
    };
    assert_eq!(q.patches_capacity, 33);
}
