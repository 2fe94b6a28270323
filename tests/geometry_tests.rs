use voxel_core::geometry::{
    chunk_local_to_world, floor_div, get_neighbor, one_d_cords, three_d_cords,
    world_to_chunk_local, Face, CHUNK_LEN, HEIGHT, LENGTH, WIDTH,
};

#[test]
fn flatten_uses_row_major_strides() {
    assert_eq!(one_d_cords([0, 0, 0]), 0);
    assert_eq!(one_d_cords([1, 0, 0]), 1);
    assert_eq!(one_d_cords([0, 0, 1]), WIDTH);
    assert_eq!(one_d_cords([0, 1, 0]), WIDTH * LENGTH);
    assert_eq!(one_d_cords([3, 5, 7]), 1395);
    assert_eq!(one_d_cords([WIDTH - 1, HEIGHT - 1, LENGTH - 1]), CHUNK_LEN - 1);
}

#[test]
fn unflatten_inverts_flatten() {
    for i in [0usize, 1, 15, 16, 255, 256, 1395, 40000, CHUNK_LEN - 1] {
        assert_eq!(one_d_cords(three_d_cords(i)), i);
    }
    assert_eq!(three_d_cords(1395), [3, 5, 7]);
}

#[test]
fn neighbor_inside_and_outside_chunk() {
    let i = one_d_cords([3, 5, 7]);
    assert_eq!(get_neighbor(i, Face::Right), Some(i + 1));
    assert_eq!(get_neighbor(i, Face::Left), Some(i - 1));
    assert_eq!(get_neighbor(i, Face::Back), Some(i + WIDTH));
    assert_eq!(get_neighbor(i, Face::Forward), Some(i - WIDTH));
    assert_eq!(get_neighbor(i, Face::Top), Some(i + WIDTH * LENGTH));
    assert_eq!(get_neighbor(i, Face::Bottom), Some(i - WIDTH * LENGTH));
    assert_eq!(get_neighbor(one_d_cords([15, 5, 7]), Face::Right), None);
    assert_eq!(get_neighbor(one_d_cords([0, 5, 7]), Face::Left), None);
    assert_eq!(get_neighbor(one_d_cords([3, 255, 7]), Face::Top), None);
    assert_eq!(get_neighbor(one_d_cords([3, 0, 7]), Face::Bottom), None);
    assert_eq!(get_neighbor(one_d_cords([3, 5, 15]), Face::Back), None);
    assert_eq!(get_neighbor(one_d_cords([3, 5, 0]), Face::Forward), None);
}

#[test]
fn floor_div_rounds_down() {
    assert_eq!(floor_div(7, 2), 3);
    assert_eq!(floor_div(-7, 2), -4);
    assert_eq!(floor_div(-8, 2), -4);
    assert_eq!(floor_div(-1, 16), -1);
    assert_eq!(floor_div(0, 16), 0);
}

#[test]
fn world_cell_buckets_into_chunk() {
    assert_eq!(world_to_chunk_local([0, 10, 0]), ([0, 0], [0, 10, 0]));
    assert_eq!(world_to_chunk_local([17, 3, 35]), ([1, 2], [1, 3, 3]));
    assert_eq!(world_to_chunk_local([-1, 0, -17]), ([-1, -2], [15, 0, 15]));
}

#[test]
fn chunk_local_round_trip() {
    for cell in [[0i64, 0, 0], [17, 3, 35], [-1, 255, -17], [-160, 42, 159]] {
        let (chunk, local) = world_to_chunk_local(cell);
        assert_eq!(chunk_local_to_world(chunk, local), cell);
    }
}
