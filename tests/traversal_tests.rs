use voxel_core::geometry::Face;
use voxel_core::traversal::{
    blocks_in_the_way, closest_face, distance_from_face, FIXED_ONE, REACH_DISTANCE,
};

#[test]
fn forward_ray_from_viewer_first_hit() {
    // viewer at (0.5, 10.0, 0.5) looking along -z
    let pos = [FIXED_ONE / 2, 10 * FIXED_ONE, FIXED_ONE / 2];
    let hits = blocks_in_the_way(pos, [0, 0, -100], REACH_DISTANCE);
    assert!(!hits.is_empty());
    assert_eq!(hits[0].chunk, [0, 0]);
    assert_eq!(hits[0].local, [0, 10, 0]);
    assert_eq!(hits[0].face, Face::Back);
    // the next cells along -z lie in chunk (0, -1)
    assert_eq!(hits[1].chunk, [0, -1]);
    assert_eq!(hits[1].local, [0, 10, 15]);
    // crossings at z = 0.5, -0.5, ..., -4.5; the last probe point is -4.5
    assert_eq!(hits.len(), 6);
    assert_eq!(hits[5].local, [0, 10, 11]);
}

#[test]
fn downward_ray_enters_through_top() {
    let pos = [0, 10 * FIXED_ONE + FIXED_ONE / 5, 0];
    let hits = blocks_in_the_way(pos, [0, -100, 0], REACH_DISTANCE);
    assert_eq!(hits[0].face, Face::Top);
    assert_eq!(hits[0].local, [0, 9, 0]);
    for h in &hits {
        assert_eq!(h.face, Face::Top);
    }
}

#[test]
fn upward_ray_enters_through_bottom() {
    let pos = [0, 10 * FIXED_ONE + FIXED_ONE / 5, 0];
    let hits = blocks_in_the_way(pos, [0, 100, 0], REACH_DISTANCE);
    assert_eq!(hits[0].face, Face::Bottom);
    // the crossing lies just past y = 10.5, whose voxel is the one at y = 10
    assert_eq!(hits[0].local, [0, 10, 0]);
    assert_eq!(hits[1].local, [0, 11, 0]);
}

#[test]
fn traversal_is_repeatable() {
    let pos = [123_456, 1_700_000, -98_765];
    let dir = [57, -23, 80];
    assert_eq!(blocks_in_the_way(pos, dir, 5), blocks_in_the_way(pos, dir, 5));
}

#[test]
fn hits_move_away_from_origin() {
    let pos = [FIXED_ONE / 3, 20 * FIXED_ONE, FIXED_ONE / 7];
    let dir = [60, -30, 70];
    let hits = blocks_in_the_way(pos, dir, 6);
    assert!(hits.len() >= 3);
    let centre = |h: &voxel_core::traversal::TraversalHit| {
        let x = h.chunk[0] as i64 * 16 + h.local[0] as i64;
        let z = h.chunk[1] as i64 * 16 + h.local[2] as i64;
        [x, h.local[1] as i64, z]
    };
    let mut last = i64::MIN;
    for h in &hits {
        let c = centre(h);
        let along = c[0] * dir[0] + c[1] * dir[1] + c[2] * dir[2];
        assert!(along >= last);
        last = along;
    }
}

#[test]
fn ray_below_floor_records_nothing_out_of_range() {
    let pos = [0, FIXED_ONE / 5, 0];
    let hits = blocks_in_the_way(pos, [0, -100, 0], REACH_DISTANCE);
    assert!(hits.is_empty());
}

#[test]
fn face_distances_are_exact() {
    let p = [FIXED_ONE / 10, 2 * FIXED_ONE + FIXED_ONE / 4, -FIXED_ONE / 5];
    assert_eq!(distance_from_face(p, Face::Right), FIXED_ONE / 2 - FIXED_ONE / 10);
    assert_eq!(distance_from_face(p, Face::Left), FIXED_ONE / 2 + FIXED_ONE / 10);
    assert_eq!(distance_from_face(p, Face::Top), FIXED_ONE / 4);
    assert_eq!(distance_from_face(p, Face::Bottom), 3 * FIXED_ONE / 4);
    assert_eq!(distance_from_face(p, Face::Back), FIXED_ONE / 2 + FIXED_ONE / 5);
    assert_eq!(distance_from_face(p, Face::Forward), FIXED_ONE / 2 - FIXED_ONE / 5);
}

#[test]
fn closest_face_picks_nearest_candidate() {
    let p = [FIXED_ONE / 10, 2 * FIXED_ONE + FIXED_ONE / 4, -FIXED_ONE / 5];
    assert_eq!(closest_face(p, [Face::Right, Face::Top, Face::Forward]), Face::Top);
    assert_eq!(closest_face(p, [Face::Left, Face::Bottom, Face::Back]), Face::Left);
    // ties keep the earlier candidate
    let q = [0, 0, 0];
    assert_eq!(closest_face(q, [Face::Right, Face::Top, Face::Back]), Face::Right);
    assert_eq!(closest_face(q, [Face::Back, Face::Top, Face::Right]), Face::Back);
}

#[test]
fn halves_round_away_from_zero() {
    // y = -0.5 lies in cell -1, whose top plane is at -0.5
    let p = [0, -FIXED_ONE / 2, 0];
    assert_eq!(distance_from_face(p, Face::Top), 0);
    assert_eq!(distance_from_face(p, Face::Bottom), FIXED_ONE);
    // x = -2.5 lies in cell -3, x = 2.5 in cell 3
    let q = [-5 * FIXED_ONE / 2, 0, 0];
    assert_eq!(distance_from_face(q, Face::Right), 0);
    let r = [5 * FIXED_ONE / 2, 0, 0];
    assert_eq!(distance_from_face(r, Face::Left), 0);
    // just off the half, ordinary rounding
    let s = [-5 * FIXED_ONE / 2 + 1, 0, 0];
    assert_eq!(distance_from_face(s, Face::Left), 1);
}
