//! Chunk dimensions, faces, and the maps between world cells, chunk
//! coordinates and flattened chunk-local indices.
use vstd::prelude::*;

verus! {

/// Extent of a chunk along x.
pub const WIDTH: usize = 16;

/// Extent of a chunk along z.
pub const LENGTH: usize = 16;

/// Extent of a chunk along y; the world's vertical bound.
pub const HEIGHT: usize = 256;

/// Number of voxels in one chunk.
pub const CHUNK_LEN: usize = 65536;

/// One of the six axis-aligned sides of a voxel cell.
///
/// `Right`/`Left` face +x/-x, `Top`/`Bottom` face +y/-y and
/// `Back`/`Forward` face +z/-z.
#[derive(Clone, Copy, Debug, PartialEq, Eq, Structural)]
pub enum Face {
    Top,
    Bottom,
    Right,
    Left,
    Back,
    Forward,
}

/// Index of a face's axis: 0 for x, 1 for y, 2 for z.
pub open spec fn face_axis(f: Face) -> int {
    match f {
        Face::Right | Face::Left => 0,
        Face::Top | Face::Bottom => 1,
        Face::Back | Face::Forward => 2,
    }
}

/// Whether a face looks toward the positive end of its axis.
pub open spec fn face_positive(f: Face) -> bool {
    match f {
        Face::Top | Face::Right | Face::Back => true,
        _ => false,
    }
}

/// Unit offset from a cell to its neighbour across face `f`, on axis `axis`.
pub open spec fn face_offset(f: Face, axis: int) -> int {
    if face_axis(f) != axis {
        0
    } else if face_positive(f) {
        1
    } else {
        -1
    }
}

/// Whether `p` names a cell inside one chunk.
pub open spec fn local_in_bounds(p: [usize; 3]) -> bool {
    p[0] < WIDTH && p[1] < HEIGHT && p[2] < LENGTH
}

/// Row-major flattening with strides 1, WIDTH and WIDTH * LENGTH for x, z, y.
pub open spec fn flat_index(x: int, y: int, z: int) -> int {
    x + z * WIDTH + y * (WIDTH * LENGTH)
}

/// The local cell that a flat index stands for.
pub open spec fn unflat(i: int) -> (int, int, int) {
    (i % (WIDTH as int), i / ((WIDTH * LENGTH) as int), (i / (WIDTH as int)) % (LENGTH as int))
}

proof fn lemma_unflat_flat(x: int, y: int, z: int)
    requires
        0 <= x < WIDTH,
        0 <= y < HEIGHT,
        0 <= z < LENGTH,
    ensures
        0 <= flat_index(x, y, z) < CHUNK_LEN,
        unflat(flat_index(x, y, z)) == (x, y, z),
{
    let i = flat_index(x, y, z);
    assert(i == x + z * 16 + y * 256);
    assert(i == x + 16 * (z + 16 * y)) by (nonlinear_arith)
        requires
            i == x + z * 16 + y * 256,
    ;
    assert(i % 16 == x && i / 16 == z + 16 * y) by (nonlinear_arith)
        requires
            i == x + 16 * (z + 16 * y),
            0 <= x < 16,
            0 <= z < 16,
            0 <= y,
    ;
    assert((z + 16 * y) % 16 == z && (z + 16 * y) / 16 == y) by (nonlinear_arith)
        requires
            0 <= z < 16,
            0 <= y,
    ;
    assert(i / 256 == y) by (nonlinear_arith)
        requires
            i == x + 16 * (z + 16 * y),
            0 <= x < 16,
            0 <= z < 16,
            0 <= y,
    ;
}

proof fn lemma_flat_unflat(i: int)
    requires
        0 <= i < CHUNK_LEN,
    ensures
        0 <= unflat(i).0 < WIDTH,
        0 <= unflat(i).1 < HEIGHT,
        0 <= unflat(i).2 < LENGTH,
        flat_index(unflat(i).0, unflat(i).1, unflat(i).2) == i,
{
    let x = i % 16;
    let q = i / 16;
    let z = q % 16;
    let y = i / 256;
    assert(i == x + 16 * q && 0 <= x < 16) by (nonlinear_arith)
        requires
            x == i % 16,
            q == i / 16,
            0 <= i,
    ;
    assert(q == z + 16 * (q / 16) && 0 <= z < 16) by (nonlinear_arith)
        requires
            z == q % 16,
            0 <= q,
    ;
    assert(q / 16 == y) by (nonlinear_arith)
        requires
            q == i / 16,
            y == i / 256,
            0 <= i,
    ;
    assert(0 <= y < 256) by (nonlinear_arith)
        requires
            y == i / 256,
            0 <= i < 65536,
    ;
}

/// Flattens local cell coordinates `[x, y, z]` into an index of the chunk buffer.
pub fn one_d_cords(p: [usize; 3]) -> (r: usize)
    requires
        local_in_bounds(p),
    ensures
        r == flat_index(p[0] as int, p[1] as int, p[2] as int),
        r < CHUNK_LEN,
{
    proof {
        lemma_unflat_flat(p[0] as int, p[1] as int, p[2] as int);
    }
    p[0] + p[2] * WIDTH + p[1] * (WIDTH * LENGTH)
}

/// Local cell coordinates `[x, y, z]` of a flat chunk index.
pub fn three_d_cords(i: usize) -> (r: [usize; 3])
    requires
        i < CHUNK_LEN,
    ensures
        local_in_bounds(r),
        (r[0] as int, r[1] as int, r[2] as int) == unflat(i as int),
        flat_index(r[0] as int, r[1] as int, r[2] as int) == i,
{
    proof {
        lemma_flat_unflat(i as int);
    }
    [i % WIDTH, i / (WIDTH * LENGTH), (i / WIDTH) % LENGTH]
}

/// Flattening is a bijection between local cells and indices below `CHUNK_LEN`.
pub proof fn lemma_flatten_bijective(p: [usize; 3], i: int)
    requires
        local_in_bounds(p),
        0 <= i < CHUNK_LEN,
    ensures
        0 <= flat_index(p[0] as int, p[1] as int, p[2] as int) < CHUNK_LEN,
        unflat(flat_index(p[0] as int, p[1] as int, p[2] as int)) == (
            p[0] as int,
            p[1] as int,
            p[2] as int,
        ),
        flat_index(unflat(i).0, unflat(i).1, unflat(i).2) == i,
{
    lemma_unflat_flat(p[0] as int, p[1] as int, p[2] as int);
    lemma_flat_unflat(i);
}

/// The neighbour of local index `i` across face `f`, if it lies in the same chunk.
pub open spec fn spec_neighbor(i: int, f: Face) -> Option<int> {
    let c = unflat(i);
    let x = c.0 + face_offset(f, 0);
    let y = c.1 + face_offset(f, 1);
    let z = c.2 + face_offset(f, 2);
    if 0 <= x < WIDTH && 0 <= y < HEIGHT && 0 <= z < LENGTH {
        Some(flat_index(x, y, z))
    } else {
        None
    }
}

/// Local index of the voxel adjacent to `i` across face `f`, or `None` when that
/// voxel lies outside the chunk.
pub fn get_neighbor(i: usize, f: Face) -> (r: Option<usize>)
    requires
        i < CHUNK_LEN,
    ensures
        r matches Some(n) ==> n < CHUNK_LEN,
        match r {
            Some(n) => spec_neighbor(i as int, f) == Some(n as int),
            None => spec_neighbor(i as int, f).is_none(),
        },
{
    let c = three_d_cords(i);
    let (x, y, z) = (c[0], c[1], c[2]);
    let n: Option<[usize; 3]> = match f {
        Face::Right => if x + 1 < WIDTH { Some([x + 1, y, z]) } else { None },
        Face::Left => if x > 0 { Some([x - 1, y, z]) } else { None },
        Face::Top => if y + 1 < HEIGHT { Some([x, y + 1, z]) } else { None },
        Face::Bottom => if y > 0 { Some([x, y - 1, z]) } else { None },
        Face::Back => if z + 1 < LENGTH { Some([x, y, z + 1]) } else { None },
        Face::Forward => if z > 0 { Some([x, y, z - 1]) } else { None },
    };
    match n {
        Some(p) => Some(one_d_cords(p)),
        None => None,
    }
}

/// Floor of `a / b` for a positive divisor, as an integer quotient.
pub fn floor_div(a: i64, b: i64) -> (r: i64)
    requires
        b > 0,
    ensures
        r == a as int / b as int,
{
    if a >= 0 {
        ((a as u64) / (b as u64)) as i64
    } else {
        let m: u64 = ((-(a + 1)) as u64) / (b as u64);
        proof {
            let q = (-(a + 1)) as int / b as int;
            assert(a as int / b as int == -q - 1) by (nonlinear_arith)
                requires
                    q == (-(a as int + 1)) / b as int,
                    a < 0,
                    b > 0,
            ;
        }
        -(m as i64) - 1
    }
}

/// The voxel grid's cells are addressed in world space by integer triples.
/// This gives the chunk of a world cell.
pub open spec fn chunk_of(cell: (int, int, int)) -> (int, int) {
    (cell.0 / (WIDTH as int), cell.2 / (LENGTH as int))
}

/// The local cell of a world cell inside its chunk.
pub open spec fn local_of(cell: (int, int, int)) -> (int, int, int) {
    (cell.0 % (WIDTH as int), cell.1, cell.2 % (LENGTH as int))
}

/// The world cell of a local cell of a chunk.
pub open spec fn world_of(chunk: (int, int), local: (int, int, int)) -> (int, int, int) {
    (chunk.0 * WIDTH + local.0, local.1, chunk.1 * LENGTH + local.2)
}

/// Bound on world cell coordinates along x and z, so that chunk coordinates fit in `i32`.
pub const CELL_LIMIT: i64 = 0x1_0000_0000;

/// Whether a world cell lies in the playable column range.
pub open spec fn cell_in_world(cell: (int, int, int)) -> bool {
    -CELL_LIMIT <= cell.0 <= CELL_LIMIT && 0 <= cell.1 < HEIGHT && -CELL_LIMIT <= cell.2
        <= CELL_LIMIT
}

/// Whether a chunk coordinate lies in the range that world cells can reach.
pub open spec fn chunk_in_range(c: [i32; 2]) -> bool {
    -0x1000_0000 <= c[0] <= 0x1000_0000 && -0x1000_0000 <= c[1] <= 0x1000_0000
}

/// Buckets a world cell `[x, y, z]` into its chunk and its local cell.
pub fn world_to_chunk_local(cell: [i64; 3]) -> (r: ([i32; 2], [usize; 3]))
    requires
        cell_in_world((cell[0] as int, cell[1] as int, cell[2] as int)),
    ensures
        (r.0[0] as int, r.0[1] as int) == chunk_of((cell[0] as int, cell[1] as int, cell[2] as int)),
        (r.1[0] as int, r.1[1] as int, r.1[2] as int) == local_of(
            (cell[0] as int, cell[1] as int, cell[2] as int),
        ),
        local_in_bounds(r.1),
        chunk_in_range(r.0),
{
    let cx = floor_div(cell[0], WIDTH as i64);
    let cz = floor_div(cell[2], LENGTH as i64);
    let lx = cell[0] - cx * (WIDTH as i64);
    let lz = cell[2] - cz * (LENGTH as i64);
    proof {
        let a = cell[0] as int;
        let b = cell[2] as int;
        assert(a - (a / 16) * 16 == a % 16 && 0 <= a % 16 < 16) by (nonlinear_arith);
        assert(b - (b / 16) * 16 == b % 16 && 0 <= b % 16 < 16) by (nonlinear_arith);
        assert(-0x1000_0000 <= a / 16 <= 0x1000_0000) by (nonlinear_arith)
            requires
                -0x1_0000_0000 <= a <= 0x1_0000_0000,
        ;
        assert(-0x1000_0000 <= b / 16 <= 0x1000_0000) by (nonlinear_arith)
            requires
                -0x1_0000_0000 <= b <= 0x1_0000_0000,
        ;
    }
    ([cx as i32, cz as i32], [lx as usize, cell[1] as usize, lz as usize])
}

/// Maps a chunk and a local cell back to the world cell.
pub fn chunk_local_to_world(chunk: [i32; 2], local: [usize; 3]) -> (r: [i64; 3])
    requires
        local_in_bounds(local),
    ensures
        (r[0] as int, r[1] as int, r[2] as int) == world_of(
            (chunk[0] as int, chunk[1] as int),
            (local[0] as int, local[1] as int, local[2] as int),
        ),
{
    [
        chunk[0] as i64 * (WIDTH as i64) + local[0] as i64,
        local[1] as i64,
        chunk[1] as i64 * (LENGTH as i64) + local[2] as i64,
    ]
}

/// Bucketing a world cell into chunk and local cell, then mapping back, gives
/// the same cell.
pub proof fn lemma_chunk_local_round_trip(cell: (int, int, int))
    ensures
        world_of(chunk_of(cell), local_of(cell)) == cell,
        0 <= local_of(cell).0 < WIDTH,
        0 <= local_of(cell).2 < LENGTH,
{
    let a = cell.0;
    let b = cell.2;
    assert((a / 16) * 16 + a % 16 == a && 0 <= a % 16 < 16) by (nonlinear_arith);
    assert((b / 16) * 16 + b % 16 == b && 0 <= b % 16 < 16) by (nonlinear_arith);
}

} // verus!
