use voxel_core::add_break_blocks::{
    add_break_detector, place_target, resolve_break, resolve_place, BlockChangeError,
    VoxelChange,
};
use voxel_core::geometry::{one_d_cords, Face, WIDTH};
use voxel_core::traversal::{blocks_in_the_way, TraversalHit, FIXED_ONE, REACH_DISTANCE};

fn hit(chunk: [i32; 2], local: [usize; 3], face: Face) -> TraversalHit {
    TraversalHit { chunk, local, face }
}

#[test]
fn place_against_right_face_inside_chunk() {
    let h = hit([2, -1], [3, 5, 7], Face::Right);
    let i = one_d_cords([3, 5, 7]);
    assert_eq!(place_target(h), Ok(([2, -1], i + 1, Some(([2, -1], i)))));
}

#[test]
fn place_against_right_face_on_boundary() {
    let h = hit([2, -1], [15, 5, 7], Face::Right);
    let i = one_d_cords([15, 5, 7]);
    assert_eq!(place_target(h), Ok(([3, -1], i - WIDTH + 1, Some(([2, -1], i)))));
}

#[test]
fn place_across_other_chunk_boundaries() {
    let i = one_d_cords([0, 5, 7]);
    assert_eq!(
        place_target(hit([0, 0], [0, 5, 7], Face::Left)),
        Ok(([-1, 0], i + WIDTH - 1, Some(([0, 0], i))))
    );
    let j = one_d_cords([4, 5, 15]);
    assert_eq!(
        place_target(hit([0, 0], [4, 5, 15], Face::Back)),
        Ok(([0, 1], one_d_cords([4, 5, 0]), Some(([0, 0], j))))
    );
    let k = one_d_cords([4, 5, 0]);
    assert_eq!(
        place_target(hit([0, 0], [4, 5, 0], Face::Forward)),
        Ok(([0, -1], one_d_cords([4, 5, 15]), Some(([0, 0], k))))
    );
}

#[test]
fn place_beyond_build_limits_fails() {
    assert_eq!(
        place_target(hit([0, 0], [1, 255, 1], Face::Top)),
        Err(BlockChangeError::AboveBuildLimit)
    );
    assert_eq!(
        place_target(hit([0, 0], [1, 0, 1], Face::Bottom)),
        Err(BlockChangeError::BelowBuildLimit)
    );
}

#[test]
fn break_keeps_every_hit() {
    let hits = vec![
        hit([0, 0], [0, 10, 0], Face::Back),
        hit([0, -1], [0, 10, 15], Face::Back),
    ];
    let e = resolve_break(&hits);
    assert_eq!(e.change, VoxelChange::Broken);
    assert_eq!(
        e.blocks,
        vec![
            ([0, 0], one_d_cords([0, 10, 0]), None),
            ([0, -1], one_d_cords([0, 10, 15]), None)
        ]
    );
}

#[test]
fn place_skips_first_hit() {
    let hits = vec![
        hit([0, 0], [0, 10, 0], Face::Back),
        hit([0, -1], [0, 10, 15], Face::Back),
        hit([0, -1], [0, 10, 14], Face::Back),
    ];
    let b = resolve_break(&hits);
    let p = resolve_place(&hits).unwrap();
    assert_eq!(p.change, VoxelChange::Added);
    assert_eq!(p.blocks.len() + 1, b.blocks.len());
    assert_eq!(
        p.blocks,
        vec![
            ([0, 0], one_d_cords([0, 10, 0]), Some(([0, -1], one_d_cords([0, 10, 15])))),
            ([0, -1], one_d_cords([0, 10, 15]), Some(([0, -1], one_d_cords([0, 10, 14])))),
        ]
    );
}

#[test]
fn place_with_no_hits_is_empty() {
    let p = resolve_place(&vec![]).unwrap();
    assert!(p.blocks.is_empty());
}

#[test]
fn place_error_is_first_failing_hit() {
    let hits = vec![
        hit([0, 0], [0, 0, 0], Face::Bottom),
        hit([0, 0], [0, 0, 0], Face::Bottom),
        hit([0, 0], [0, 255, 0], Face::Top),
    ];
    assert_eq!(resolve_place(&hits).unwrap_err(), BlockChangeError::BelowBuildLimit);
}

#[test]
fn detector_breaks_along_view() {
    let pos = [FIXED_ONE / 2, 10 * FIXED_ONE, FIXED_ONE / 2];
    let events = add_break_detector(true, false, pos, [0, 0, -100]).unwrap();
    assert_eq!(events.len(), 1);
    assert_eq!(events[0].change, VoxelChange::Broken);
    assert_eq!(events[0].blocks[0], ([0, 0], one_d_cords([0, 10, 0]), None));
    let hits = blocks_in_the_way(pos, [0, 0, -100], REACH_DISTANCE);
    assert_eq!(events[0].blocks.len(), hits.len());
}

#[test]
fn detector_break_and_place_together() {
    let pos = [FIXED_ONE / 2, 10 * FIXED_ONE, FIXED_ONE / 2];
    let events = add_break_detector(true, true, pos, [0, 0, -100]).unwrap();
    assert_eq!(events.len(), 2);
    assert_eq!(events[1].change, VoxelChange::Added);
    assert_eq!(events[1].blocks.len() + 1, events[0].blocks.len());
}

#[test]
fn detector_idle_without_action() {
    let pos = [0, -5 * FIXED_ONE, 0];
    assert!(add_break_detector(false, false, pos, [0, 0, -100]).unwrap().is_empty());
}

#[test]
fn detector_rejects_viewer_out_of_height() {
    let below = [0, -FIXED_ONE, 0];
    let above = [0, 257 * FIXED_ONE, 0];
    assert_eq!(
        add_break_detector(true, false, below, [0, 0, -100]).unwrap_err(),
        BlockChangeError::OutOfHeight
    );
    assert_eq!(
        add_break_detector(false, true, above, [0, 0, -100]).unwrap_err(),
        BlockChangeError::OutOfHeight
    );
}

#[test]
fn detector_place_above_top_fails() {
    let pos = [0, 256 * FIXED_ONE, 0];
    assert_eq!(
        add_break_detector(false, true, pos, [0, -100, 0]).map(|v| v.len()),
        Ok(1)
    );
}
