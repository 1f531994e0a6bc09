use math3render::patch::EncodedPatch;

#[test]
fn root_patch_is_sentinel_only() {
    let p = EncodedPatch::root(5);
    assert_eq!(p.u, 1);
    assert_eq!(p.v, 1);
    assert_eq!(p.instance, 5);
    assert_eq!(p.decode_depth(), 0);
}

#[test]
fn child_appends_one_bit_per_axis() {
    let root = EncodedPatch::root(0);
    let c = root.child(true, false);
    assert_eq!(c.u, 3);
    assert_eq!(c.v, 2);
    assert_eq!(c.instance, 0);
    assert_eq!(c.decode_depth(), 1);

    let cc = c.child(false, true);
    assert_eq!(cc.u, 6);
    assert_eq!(cc.v, 5);
    assert_eq!(cc.decode_depth(), 2);
}

#[test]
fn decoded_depth_counts_subdivisions() {
    let mut p = EncodedPatch::root(9);
    for expected in 0..8u32 {
        assert_eq!(p.decode_depth(), expected);
        p = p.child(expected % 2 == 0, expected % 3 == 0);
    }
    assert_eq!(p.decode_depth(), 8);
}

#[test]
fn quadrant_children_are_distinct() {
    let p = EncodedPatch::root(0).child(true, true);
    let kids = [
        p.child(false, false),
        p.child(true, false),
        p.child(false, true),
        p.child(true, true),
    ];
    for i in 0..4 {
        for j in 0..4 {
            if i != j {
                assert!(kids[i] != kids[j]);
            }
        }
        assert_eq!(kids[i].decode_depth(), 2);
        assert_eq!(kids[i].instance, 0);
    }
}
