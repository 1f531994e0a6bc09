use math3render::decider::{AcceptAll, AcceptNone, DepthCutoff, UniformScreenSize};
use math3render::lod::{ComputePatches, ParametricModel};
use math3render::patch::EncodedPatch;
use math3render::queue::PatchQueue;
use math3render::render_buffers::ParametricModelRender;
use math3render::stage::subdivision_pass;
use math3render::{MAX_PATCH_COUNT, ROUNDS};

fn bucket_lengths(m: &ParametricModel) -> [u32; 5] {
    [
        m.render.render_buffer_2.len_clamped(),
        m.render.render_buffer_4.len_clamped(),
        m.render.render_buffer_8.len_clamped(),
        m.render.render_buffer_16.len_clamped(),
        m.render.render_buffer_32.len_clamped(),
    ]
}

fn instance_counts(m: &ParametricModel) -> [u32; 5] {
    let d = &m.render.indirect_draw;
    [
        d[0].instance_count,
        d[1].instance_count,
        d[2].instance_count,
        d[3].instance_count,
        d[4].instance_count,
    ]
}

#[test]
fn round_count_is_always_eight() {
    let cp = ComputePatches::new(1024);
    let mut m = ParametricModel::new(1024);
    assert_eq!(ROUNDS, 8);
    assert_eq!(m.lod_stage(&cp, &AcceptAll {}, 1), 8);
    assert_eq!(m.lod_stage(&cp, &AcceptNone {}, 1), 8);
    assert_eq!(m.lod_stage(&cp, &AcceptAll {}, 0), 8);
}

#[test]
fn accepted_roots_fill_depth_zero_bucket() {
    let cp = ComputePatches::new(1024);
    let mut m = ParametricModel::new(1024);
    m.lod_stage(&cp, &AcceptAll {}, 7);
    assert_eq!(bucket_lengths(&m), [0, 0, 0, 0, 7]);
    assert_eq!(instance_counts(&m), [0, 0, 0, 0, 7]);
    for i in 0..7u32 {
        let leaf = *m.render.render_buffer_32.get(i as usize);
        assert_eq!(leaf, EncodedPatch::root(i));
    }
    assert_eq!(m.lod.patches_buffer_0.len_clamped(), 0);
    assert_eq!(m.lod.indirect_compute_buffer_0.x, 0);
    assert_eq!(m.lod.force_render_uniform.flag, 0);
}

#[test]
fn one_subdivision_pass_emits_four_children() {
    let mut from = PatchQueue::new(64);
    from.try_append(EncodedPatch::root(0));
    let mut to = PatchQueue::new(64);
    let mut render = ParametricModelRender::new(64);
    subdivision_pass(&DepthCutoff { min_leaf_depth: 1 }, false, &from, &mut to, &mut render);
    assert_eq!(to.len_clamped(), 4);
    for i in 0..4 {
        assert_eq!(to.get(i).decode_depth(), 1);
        assert_eq!(to.get(i).instance, 0);
    }
    assert_eq!(render.render_buffer_2.len_clamped(), 0);
    assert_eq!(render.render_buffer_4.len_clamped(), 0);
    assert_eq!(render.render_buffer_8.len_clamped(), 0);
    assert_eq!(render.render_buffer_16.len_clamped(), 0);
    assert_eq!(render.render_buffer_32.len_clamped(), 0);
}

#[test]
fn depth_one_threshold_yields_four_leaves() {
    let cp = ComputePatches::new(1024);
    let mut m = ParametricModel::new(1024);
    m.lod_stage(&cp, &DepthCutoff { min_leaf_depth: 1 }, 1);
    assert_eq!(bucket_lengths(&m), [0, 0, 0, 4, 0]);
    assert_eq!(instance_counts(&m), [0, 0, 0, 4, 0]);
    for i in 0..4 {
        assert_eq!(m.render.render_buffer_16.get(i).decode_depth(), 1);
    }
}

#[test]
fn rejected_patches_subdivide_until_forced_round() {
    let cp = ComputePatches::new(MAX_PATCH_COUNT);
    let mut m = ParametricModel::new(MAX_PATCH_COUNT);
    m.lod_stage(&cp, &AcceptNone {}, 1);
    // One root quadruples through seven unforced rounds: 4^7 leaves, all
    // flushed by the forced final round at the deepest reachable depth.
    assert_eq!(bucket_lengths(&m), [16384, 0, 0, 0, 0]);
    assert_eq!(instance_counts(&m), [16384, 0, 0, 0, 0]);
    assert_eq!(m.render.render_buffer_2.get(0).decode_depth(), 7);
    assert_eq!(m.render.render_buffer_2.get(16383).decode_depth(), 7);
    assert_eq!(m.lod.patches_buffer_0.len_clamped(), 0);
}

#[test]
fn uniform_screen_size_stops_at_matching_depth() {
    let cp = ComputePatches::new(MAX_PATCH_COUNT);
    let mut m = ParametricModel::new(MAX_PATCH_COUNT);
    let decider = UniformScreenSize { root_side_pixels: 64, threshold_pixels: 16 };
    m.lod_stage(&cp, &decider, 1);
    // 64 px halves to 16 px after two subdivisions: 16 leaves at depth 2.
    assert_eq!(bucket_lengths(&m), [0, 0, 16, 0, 0]);
    assert_eq!(instance_counts(&m), [0, 0, 16, 0, 0]);
    assert_eq!(m.render.render_buffer_8.get(0).decode_depth(), 2);
}

#[test]
fn queue_saturation_drops_silently_end_to_end() {
    let cp = ComputePatches::new(8);
    let mut m = ParametricModel::new(8);
    m.lod_stage(&cp, &AcceptNone {}, 1);
    // The queue saturates at 8 stored patches per round, so the forced
    // final round flushes exactly the 8 survivors.
    assert_eq!(bucket_lengths(&m), [8, 0, 0, 0, 0]);
    assert_eq!(instance_counts(&m), [8, 0, 0, 0, 0]);
    assert_eq!(m.render.render_buffer_2.get(0).decode_depth(), 7);
}

#[test]
fn seeding_saturates_at_capacity() {
    let cp = ComputePatches::new(4);
    let mut m = ParametricModel::new(4);
    m.lod_stage(&cp, &AcceptAll {}, 10);
    assert_eq!(bucket_lengths(&m), [0, 0, 0, 0, 4]);
    assert_eq!(instance_counts(&m), [0, 0, 0, 0, 4]);
    for i in 0..4u32 {
        assert_eq!(m.render.render_buffer_32.get(i as usize).instance, i);
    }
}

#[test]
fn bucket_occupancy_sums_to_leaves_produced() {
    let cp = ComputePatches::new(1024);
    let mut m = ParametricModel::new(1024);
    m.lod_stage(&cp, &DepthCutoff { min_leaf_depth: 1 }, 3);
    // Three roots, each subdividing once into four accepted leaves.
    let total: u32 = instance_counts(&m).iter().sum();
    assert_eq!(total, 12);
    let stored: u32 = bucket_lengths(&m).iter().sum();
    assert_eq!(total, stored);
}

#[test]
fn second_frame_resets_all_state() {
    let cp = ComputePatches::new(1024);
    let mut m = ParametricModel::new(1024);
    m.lod_stage(&cp, &AcceptNone {}, 2);
    m.lod_stage(&cp, &AcceptAll {}, 3);
    assert_eq!(bucket_lengths(&m), [0, 0, 0, 0, 3]);
    assert_eq!(instance_counts(&m), [0, 0, 0, 0, 3]);
}

#[test]
fn zero_instances_renders_nothing() {
    let cp = ComputePatches::new(1024);
    let mut m = ParametricModel::new(1024);
    m.lod_stage(&cp, &AcceptNone {}, 0);
    assert_eq!(bucket_lengths(&m), [0, 0, 0, 0, 0]);
    assert_eq!(instance_counts(&m), [0, 0, 0, 0, 0]);
    assert_eq!(m.lod.patches_buffer_0.len_clamped(), 0);
    assert_eq!(m.lod.indirect_compute_buffer_0.x, 0);
}

#[test]
fn compute_patches_templates_are_zeroed() {
    let cp = ComputePatches::new(100);
    assert_eq!(cp.patches_buffer_reset.patches_length, 0);
    assert_eq!(cp.patches_buffer_reset.patches_capacity, 100);
    assert_eq!(cp.force_render_false.flag, 0);
    assert_eq!(cp.force_render_true.flag, 1);
    assert_eq!(cp.indirect_compute_buffer_reset.x, 0);
    assert_eq!(cp.indirect_compute_buffer_reset.y, 1);
    assert_eq!(cp.indirect_compute_buffer_reset.z, 1);
}
