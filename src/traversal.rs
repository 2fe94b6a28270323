//! Fixed-step ray traversal through the voxel grid, with sub-step face
//! classification of each cell boundary crossing.
//!
//! Positions are fixed-point: `FIXED_ONE` units make one voxel edge. For
//! boundary detection a coordinate belongs to the cell of its nearest integer,
//! halves rounding away from zero.
use vstd::prelude::*;
use crate::geometry::{cell_in_world, chunk_in_range, local_in_bounds, world_to_chunk_local, CELL_LIMIT, HEIGHT, chunk_of, face_axis, face_positive, floor_div, local_of, Face};

verus! {

/// Fixed-point units per voxel edge.
pub const FIXED_ONE: i64 = 150_000;

/// Half a voxel edge in fixed-point units.
pub const HALF_ONE: i64 = 75_000;

/// Number of fine sub-steps that make one coarse step.
pub const NANO_STEP_FACTOR: i64 = 15;

/// Interaction range, in voxels.
pub const REACH_DISTANCE: u8 = 5;

/// Bound on the absolute value of each component of a fine step.
pub const DIR_LIMIT: i64 = 1000;

/// Bound on the absolute value of each component of a ray origin.
pub const POS_LIMIT: i64 = 0x100_0000_0000;

/// A cell boundary crossing: the chunk, the local cell `[x, y, z]` entered, and
/// the face it was entered through.
#[derive(Clone, Copy, Debug, PartialEq, Eq)]
pub struct TraversalHit {
    pub chunk: [i32; 2],
    pub local: [usize; 3],
    pub face: Face,
}

/// The cell that contains a fixed-point coordinate for boundary detection:
/// the coordinate rounded to the nearest voxel centre, halves away from zero.
pub open spec fn round_cell(x: int) -> int {
    if x >= 0 {
        (x + HALF_ONE) / (FIXED_ONE as int)
    } else {
        -((-x + HALF_ONE) / (FIXED_ONE as int))
    }
}

/// The voxel that holds a fixed-point coordinate: its integer part, rounded down.
pub open spec fn floor_cell(x: int) -> int {
    x / (FIXED_ONE as int)
}

pub open spec fn round3(p: (int, int, int)) -> (int, int, int) {
    (round_cell(p.0), round_cell(p.1), round_cell(p.2))
}

pub open spec fn floor3(p: (int, int, int)) -> (int, int, int) {
    (floor_cell(p.0), floor_cell(p.1), floor_cell(p.2))
}

pub open spec fn v3(a: [i64; 3]) -> (int, int, int) {
    (a[0] as int, a[1] as int, a[2] as int)
}

pub open spec fn coord(p: (int, int, int), axis: int) -> int {
    if axis == 0 {
        p.0
    } else if axis == 1 {
        p.1
    } else {
        p.2
    }
}

/// Distance along the face's axis from `p` to the plane of face `f` of the
/// cell that holds `p`.
pub open spec fn face_distance(p: (int, int, int), f: Face) -> int {
    let x = coord(p, face_axis(f));
    let c = round_cell(x) * FIXED_ONE;
    let plane = if face_positive(f) { c + HALF_ONE } else { c - HALF_ONE };
    if plane >= x { plane - x } else { x - plane }
}

/// The candidate with the least face distance; on a tie the earlier candidate wins.
pub open spec fn nearest_face(p: (int, int, int), c: [Face; 3]) -> Face {
    let f1 = if face_distance(p, c[1]) < face_distance(p, c[0]) { c[1] } else { c[0] };
    if face_distance(p, c[2]) < face_distance(p, f1) { c[2] } else { f1 }
}

/// The three faces that a ray with fine step `d` can enter a cell through, one per axis.
pub open spec fn entry_faces(d: (int, int, int)) -> [Face; 3] {
    [
        if d.0 > 0 { Face::Left } else { Face::Right },
        if d.1 > 0 { Face::Bottom } else { Face::Top },
        if d.2 > 0 { Face::Forward } else { Face::Back },
    ]
}

pub open spec fn norm2(d: (int, int, int)) -> int {
    d.0 * d.0 + d.1 * d.1 + d.2 * d.2
}

/// Point reached after `j` fine steps.
pub open spec fn fine_point(pos: (int, int, int), d: (int, int, int), j: int) -> (int, int, int) {
    (pos.0 + j * d.0, pos.1 + j * d.1, pos.2 + j * d.2)
}

/// Point reached after `k` coarse steps.
pub open spec fn probe(pos: (int, int, int), d: (int, int, int), k: int) -> (int, int, int) {
    fine_point(pos, d, NANO_STEP_FACTOR * k)
}

/// Squared distance from the origin after `k` coarse steps, in fixed-point units.
pub open spec fn probe_dist2(d: (int, int, int), k: int) -> int {
    NANO_STEP_FACTOR * NANO_STEP_FACTOR * k * k * norm2(d)
}

/// Whether the probe after `k` coarse steps is still nearer than `dist` voxels.
pub open spec fn in_reach(d: (int, int, int), dist: int, k: int) -> bool {
    probe_dist2(d, k) < (dist * FIXED_ONE) * (dist * FIXED_ONE)
}

/// Whether coarse step `k` enters a new cell that lies in the world's height range.
pub open spec fn crosses(pos: (int, int, int), d: (int, int, int), k: int) -> bool {
    round3(probe(pos, d, k)) != round3(probe(pos, d, k - 1)) && cell_in_world(
        floor3(probe(pos, d, k)),
    )
}

/// The first fine sub-step in `j..15` after coarse step `k - 1` that is in
/// the cell of coarse step `k`.
pub open spec fn first_inside(pos: (int, int, int), d: (int, int, int), k: int, j: int) -> int
    decreases NANO_STEP_FACTOR - j,
{
    if j >= NANO_STEP_FACTOR || round3(fine_point(pos, d, NANO_STEP_FACTOR * (k - 1) + j))
        == round3(probe(pos, d, k)) {
        j
    } else {
        first_inside(pos, d, k, j + 1)
    }
}

/// Face through which coarse step `k` entered its cell.
pub open spec fn entry_face(pos: (int, int, int), d: (int, int, int), k: int) -> Face {
    let j = first_inside(pos, d, k, 1);
    nearest_face(fine_point(pos, d, NANO_STEP_FACTOR * (k - 1) + j), entry_faces(d))
}

/// Whether `h` describes the crossing at coarse step `k`.
pub open spec fn describes(h: TraversalHit, pos: (int, int, int), d: (int, int, int), k: int) -> bool {
    let cell = floor3(probe(pos, d, k));
    &&& (h.chunk[0] as int, h.chunk[1] as int) == chunk_of(cell)
    &&& (h.local[0] as int, h.local[1] as int, h.local[2] as int) == local_of(cell)
    &&& h.face == entry_face(pos, d, k)
}

/// Coarse steps after step `k` at which a crossing is recorded, in order.
pub open spec fn crossings_from(pos: (int, int, int), d: (int, int, int), dist: int, k: int) -> Seq<int>
    decreases dist * FIXED_ONE - k,
{
    if k < 0 || k >= dist * FIXED_ONE || !in_reach(d, dist, k) {
        Seq::empty()
    } else {
        let rest = crossings_from(pos, d, dist, k + 1);
        if crosses(pos, d, k + 1) {
            seq![k + 1] + rest
        } else {
            rest
        }
    }
}

/// Coarse steps at which a ray from `pos` with fine step `d` and reach `dist`
/// records a crossing, in order.
pub open spec fn crossings(pos: (int, int, int), d: (int, int, int), dist: int) -> Seq<int> {
    crossings_from(pos, d, dist, 0)
}

/// Whether a ray's origin and fine step lie in the supported range.
pub open spec fn ray_ok(pos: [i64; 3], d: [i64; 3]) -> bool {
    &&& -POS_LIMIT <= pos[0] <= POS_LIMIT
    &&& -POS_LIMIT <= pos[1] <= POS_LIMIT
    &&& -POS_LIMIT <= pos[2] <= POS_LIMIT
    &&& -DIR_LIMIT <= d[0] <= DIR_LIMIT
    &&& -DIR_LIMIT <= d[1] <= DIR_LIMIT
    &&& -DIR_LIMIT <= d[2] <= DIR_LIMIT
    &&& (d[0] != 0 || d[1] != 0 || d[2] != 0)
}

fn round_coord(x: i64) -> (r: i64)
    requires
        -2 * POS_LIMIT <= x <= 2 * POS_LIMIT,
    ensures
        r == round_cell(x as int),
{
    if x >= 0 {
        floor_div(x + HALF_ONE, FIXED_ONE)
    } else {
        -floor_div(-x + HALF_ONE, FIXED_ONE)
    }
}

fn round_point(p: [i64; 3]) -> (r: [i64; 3])
    requires
        -2 * POS_LIMIT <= p[0] <= 2 * POS_LIMIT,
        -2 * POS_LIMIT <= p[1] <= 2 * POS_LIMIT,
        -2 * POS_LIMIT <= p[2] <= 2 * POS_LIMIT,
    ensures
        v3(r) == round3(v3(p)),
{
    [round_coord(p[0]), round_coord(p[1]), round_coord(p[2])]
}

fn same_cell(a: [i64; 3], b: [i64; 3]) -> (r: bool)
    ensures
        r == (v3(a) == v3(b)),
{
    a[0] == b[0] && a[1] == b[1] && a[2] == b[2]
}

/// Distance along the face's axis from `p` to the plane of face `f` of the
/// cell that holds `p`.
pub fn distance_from_face(p: [i64; 3], f: Face) -> (r: i64)
    requires
        -2 * POS_LIMIT <= p[0] <= 2 * POS_LIMIT,
        -2 * POS_LIMIT <= p[1] <= 2 * POS_LIMIT,
        -2 * POS_LIMIT <= p[2] <= 2 * POS_LIMIT,
    ensures
        r == face_distance(v3(p), f),
        0 <= r <= FIXED_ONE,
{
    let x = match f {
        Face::Right | Face::Left => p[0],
        Face::Top | Face::Bottom => p[1],
        Face::Back | Face::Forward => p[2],
    };
    let c = round_coord(x);
    proof {
        let xi = x as int;
        if xi >= 0 {
            assert(round_cell(xi) * 150_000 <= xi + 75_000 < round_cell(xi) * 150_000 + 150_000)
                by (nonlinear_arith)
                requires
                    round_cell(xi) == (xi + 75_000) / 150_000,
            ;
        } else {
            let q = (-xi + 75_000) / 150_000;
            assert(q * 150_000 <= -xi + 75_000 < q * 150_000 + 150_000) by (nonlinear_arith)
                requires
                    q == (-xi + 75_000) / 150_000,
            ;
            assert(round_cell(xi) == -q);
        }
    }
    let center = c * FIXED_ONE;
    let plane = match f {
        Face::Top | Face::Right | Face::Back => center + HALF_ONE,
        _ => center - HALF_ONE,
    };
    if plane >= x {
        plane - x
    } else {
        x - plane
    }
}

/// Picks, among three candidate faces, the one whose plane is nearest to `p`;
/// on a tie the earlier candidate wins.
pub fn closest_face(p: [i64; 3], possible_faces: [Face; 3]) -> (r: Face)
    requires
        -2 * POS_LIMIT <= p[0] <= 2 * POS_LIMIT,
        -2 * POS_LIMIT <= p[1] <= 2 * POS_LIMIT,
        -2 * POS_LIMIT <= p[2] <= 2 * POS_LIMIT,
    ensures
        r == nearest_face(v3(p), possible_faces),
        r == possible_faces[0] || r == possible_faces[1] || r == possible_faces[2],
{
    let mut min: i64 = i64::MAX;
    let mut face = Face::Bottom;
    let mut i: usize = 0;
    while i < 3
        invariant
            i <= 3,
            -2 * POS_LIMIT <= p[0] <= 2 * POS_LIMIT,
            -2 * POS_LIMIT <= p[1] <= 2 * POS_LIMIT,
            -2 * POS_LIMIT <= p[2] <= 2 * POS_LIMIT,
            i == 0 ==> min == i64::MAX,
            i >= 1 ==> min == face_distance(v3(p), face),
            i == 1 ==> face == possible_faces[0],
            i == 2 ==> face == (if face_distance(v3(p), possible_faces[1]) < face_distance(
                v3(p),
                possible_faces[0],
            ) {
                possible_faces[1]
            } else {
                possible_faces[0]
            }),
            i == 3 ==> face == nearest_face(v3(p), possible_faces),
        decreases 3 - i,
    {
        let f = possible_faces[i];
        let d = distance_from_face(p, f);
        if d < min {
            face = f;
            min = d;
        }
        i += 1;
    }
    face
}

fn reach_check(d: [i64; 3], dist: u8, k: i64) -> (r: bool)
    requires
        -DIR_LIMIT <= d[0] <= DIR_LIMIT,
        -DIR_LIMIT <= d[1] <= DIR_LIMIT,
        -DIR_LIMIT <= d[2] <= DIR_LIMIT,
        0 <= k <= dist * FIXED_ONE,
    ensures
        r == in_reach(v3(d), dist as int, k as int),
{
    let (a, b, c) = (d[0] as i128, d[1] as i128, d[2] as i128);
    assert(0 <= a * a <= 1_000_000 && 0 <= b * b <= 1_000_000 && 0 <= c * c <= 1_000_000)
        by (nonlinear_arith)
        requires
            -1000 <= a <= 1000,
            -1000 <= b <= 1000,
            -1000 <= c <= 1000,
    ;
    let n: i128 = a * a + b * b + c * c;
    let kk = k as i128;
    assert(0 <= kk * kk <= 38_250_000 * 38_250_000) by (nonlinear_arith)
        requires
            0 <= kk <= 38_250_000,
    ;
    let k2 = kk * kk;
    assert(0 <= 225 * k2 * n <= 225 * (38_250_000 * 38_250_000) * 3_000_000) by (nonlinear_arith)
        requires
            0 <= k2 <= 38_250_000 * 38_250_000,
            0 <= n <= 3_000_000,
    ;
    let lhs = 225 * k2 * n;
    let rf = dist as i128 * (FIXED_ONE as i128);
    assert(0 <= rf * rf <= 38_250_000 * 38_250_000) by (nonlinear_arith)
        requires
            0 <= rf <= 38_250_000,
    ;
    proof {
        assert(probe_dist2(v3(d), k as int) == 225 * k2 * n) by (nonlinear_arith)
            requires
                k2 == k * k,
                n == d[0] * d[0] + d[1] * d[1] + d[2] * d[2],
                probe_dist2(v3(d), k as int) == 15 * 15 * k * k * (d[0] * d[0] + d[1] * d[1] + d[2]
                    * d[2]),
        ;
    }
    lhs < rf * rf
}

fn fine(pos: [i64; 3], d: [i64; 3], n: i64) -> (r: [i64; 3])
    requires
        ray_ok(pos, d),
        0 <= n <= 573_750_000,
    ensures
        v3(r) == fine_point(v3(pos), v3(d), n as int),
        -2 * POS_LIMIT <= r[0] <= 2 * POS_LIMIT,
        -2 * POS_LIMIT <= r[1] <= 2 * POS_LIMIT,
        -2 * POS_LIMIT <= r[2] <= 2 * POS_LIMIT,
{
    assert(-573_750_000_000 <= n * d[0] <= 573_750_000_000 && -573_750_000_000 <= n * d[1]
        <= 573_750_000_000 && -573_750_000_000 <= n * d[2] <= 573_750_000_000)
        by (nonlinear_arith)
        requires
            0 <= n <= 573_750_000,
            -1000 <= d[0] <= 1000,
            -1000 <= d[1] <= 1000,
            -1000 <= d[2] <= 1000,
    ;
    [pos[0] + n * d[0], pos[1] + n * d[1], pos[2] + n * d[2]]
}

fn entry_candidates(d: [i64; 3]) -> (r: [Face; 3])
    ensures
        r[0] == entry_faces(v3(d))[0],
        r[1] == entry_faces(v3(d))[1],
        r[2] == entry_faces(v3(d))[2],
{
    [
        if d[0] > 0 { Face::Left } else { Face::Right },
        if d[1] > 0 { Face::Bottom } else { Face::Top },
        if d[2] > 0 { Face::Forward } else { Face::Back },
    ]
}

/// Locates the crossing of coarse step `k` to within one fine sub-step and
/// classifies the face it went through.
fn crossing_face(pos: [i64; 3], d: [i64; 3], k: i64, target: [i64; 3]) -> (r: Face)
    requires
        ray_ok(pos, d),
        1 <= k <= 38_250_000,
        v3(target) == round3(probe(v3(pos), v3(d), k as int)),
    ensures
        r == entry_face(v3(pos), v3(d), k as int),
{
    let base = NANO_STEP_FACTOR * (k - 1);
    let mut j: i64 = 1;
    let mut p = fine(pos, d, base + 1);
    while j < NANO_STEP_FACTOR && !same_cell(round_point(p), target)
        invariant
            ray_ok(pos, d),
            1 <= k <= 38_250_000,
            base == NANO_STEP_FACTOR * (k - 1),
            1 <= j <= NANO_STEP_FACTOR,
            v3(target) == round3(probe(v3(pos), v3(d), k as int)),
            v3(p) == fine_point(v3(pos), v3(d), base + j),
            -2 * POS_LIMIT <= p[0] <= 2 * POS_LIMIT,
            -2 * POS_LIMIT <= p[1] <= 2 * POS_LIMIT,
            -2 * POS_LIMIT <= p[2] <= 2 * POS_LIMIT,
            first_inside(v3(pos), v3(d), k as int, 1) == first_inside(
                v3(pos),
                v3(d),
                k as int,
                j as int,
            ),
        decreases NANO_STEP_FACTOR - j,
    {
        j += 1;
        p = fine(pos, d, base + j);
    }
    let c = entry_candidates(d);
    closest_face(p, c)
}

fn floor_point(p: [i64; 3]) -> (r: [i64; 3])
    requires
        -2 * POS_LIMIT <= p[0] <= 2 * POS_LIMIT,
        -2 * POS_LIMIT <= p[1] <= 2 * POS_LIMIT,
        -2 * POS_LIMIT <= p[2] <= 2 * POS_LIMIT,
    ensures
        v3(r) == floor3(v3(p)),
        -CELL_LIMIT <= r[0] <= CELL_LIMIT,
        -CELL_LIMIT <= r[2] <= CELL_LIMIT,
{
    let r = [floor_div(p[0], FIXED_ONE), floor_div(p[1], FIXED_ONE), floor_div(p[2], FIXED_ONE)];
    assert(-0x1_0000_0000 <= r[0] <= 0x1_0000_0000 && -0x1_0000_0000 <= r[2] <= 0x1_0000_0000)
        by (nonlinear_arith)
        requires
            r[0] == p[0] / 150_000,
            r[2] == p[2] / 150_000,
            -0x200_0000_0000 <= p[0] <= 0x200_0000_0000,
            -0x200_0000_0000 <= p[2] <= 0x200_0000_0000,
    ;
    r
}

/// Walks a ray from `pos` in fine steps of `forward` (coarse steps of
/// `NANO_STEP_FACTOR` fine steps) until it is `distance` voxels away, and
/// returns every crossing into a new cell of the world's height range, nearest
/// first.
pub fn blocks_in_the_way(pos: [i64; 3], forward: [i64; 3], distance: u8) -> (r: Vec<TraversalHit>)
    requires
        ray_ok(pos, forward),
    ensures
        is_traversal(pos, forward, distance, r@),
        forall|i: int|
            0 <= i < r@.len() ==> local_in_bounds(#[trigger] r@[i].local) && chunk_in_range(
                r@[i].chunk,
            ),
{
    let ghost gp = v3(pos);
    let ghost gd = v3(forward);
    let ghost dist = distance as int;
    let dist_fixed: i64 = distance as i64 * FIXED_ONE;
    let mut k: i64 = 0;
    let mut current = round_point(pos);
    let mut out: Vec<TraversalHit> = Vec::new();
    let ghost mut steps: Seq<int> = Seq::empty();
    assert(v3(pos) == probe(gp, gd, 0));
    while reach_check(forward, distance, k)
        invariant
            ray_ok(pos, forward),
            gp == v3(pos),
            gd == v3(forward),
            dist == distance as int,
            dist_fixed == dist * FIXED_ONE,
            0 <= k <= dist_fixed,
            v3(current) == round3(probe(gp, gd, k as int)),
            steps + crossings_from(gp, gd, dist, k as int) == crossings(gp, gd, dist),
            out@.len() == steps.len(),
            forall|i: int|
                0 <= i < out@.len() ==> describes(#[trigger] out@[i], gp, gd, steps[i]),
            forall|i: int|
                0 <= i < out@.len() ==> local_in_bounds(#[trigger] out@[i].local) && chunk_in_range(
                    out@[i].chunk,
                ),
        decreases dist_fixed - k,
    {
        proof {
            let n = norm2(gd);
            assert(n >= 1) by (nonlinear_arith)
                requires
                    n == gd.0 * gd.0 + gd.1 * gd.1 + gd.2 * gd.2,
                    gd.0 != 0 || gd.1 != 0 || gd.2 != 0,
            ;
            let kk = k as int;
            let df = dist_fixed as int;
            assert(kk < df) by (nonlinear_arith)
                requires
                    225 * kk * kk * n < df * df,
                    n >= 1,
                    kk >= 0,
                    df >= 0,
            ;
        }
        k += 1;
        let point = fine(pos, forward, NANO_STEP_FACTOR * k);
        let cell = round_point(point);
        let ghost before = steps;
        if !same_cell(cell, current) {
            current = cell;
            let block = floor_point(point);
            if block[1] >= 0 && block[1] < HEIGHT as i64 {
                let face = crossing_face(pos, forward, k, cell);
                let (chunk, local) = world_to_chunk_local(block);
                out.push(TraversalHit { chunk, local, face });
                proof {
                    steps = steps.push(k as int);
                }
            }
        }
        proof {
            let kk = k as int;
            assert(crossings_from(gp, gd, dist, kk - 1) == (if crosses(gp, gd, kk) {
                seq![kk] + crossings_from(gp, gd, dist, kk)
            } else {
                crossings_from(gp, gd, dist, kk)
            }));
            if crosses(gp, gd, kk) {
                assert(steps == before.push(kk));
                assert(before + (seq![kk] + crossings_from(gp, gd, dist, kk)) =~= steps
                    + crossings_from(gp, gd, dist, kk));
            }
        }
    }
    assert(steps + crossings_from(gp, gd, dist, k as int) =~= steps);
    out
}

/// Whether `r` lists, nearest first, the crossings of the ray from `pos` with
/// fine step `forward` and reach `distance`.
pub open spec fn is_traversal(pos: [i64; 3], forward: [i64; 3], distance: u8, r: Seq<TraversalHit>) -> bool {
    let steps = crossings(v3(pos), v3(forward), distance as int);
    &&& r.len() == steps.len()
    &&& forall|i: int|
        0 <= i < r.len() ==> describes(#[trigger] r[i], v3(pos), v3(forward), steps[i])
}

proof fn lemma_crossings_from_ordered(pos: (int, int, int), d: (int, int, int), dist: int, k: int)
    ensures
        forall|i: int|
            0 <= i < crossings_from(pos, d, dist, k).len() ==> crossings_from(pos, d, dist, k)[i]
                > k,
        forall|i: int, j: int|
            0 <= i < j < crossings_from(pos, d, dist, k).len() ==> crossings_from(pos, d, dist, k)[i]
                < crossings_from(pos, d, dist, k)[j],
    decreases dist * FIXED_ONE - k,
{
    if k < 0 || k >= dist * FIXED_ONE || !in_reach(d, dist, k) {
    } else {
        lemma_crossings_from_ordered(pos, d, dist, k + 1);
        let rest = crossings_from(pos, d, dist, k + 1);
        if crosses(pos, d, k + 1) {
            let all = seq![k + 1] + rest;
            assert(forall|i: int| 0 < i < all.len() ==> all[i] == rest[i - 1]);
        }
    }
}

/// Two traversals of the same ray give the same hits.
pub proof fn lemma_traversal_deterministic(
    pos: [i64; 3],
    forward: [i64; 3],
    distance: u8,
    r1: Seq<TraversalHit>,
    r2: Seq<TraversalHit>,
)
    requires
        is_traversal(pos, forward, distance, r1),
        is_traversal(pos, forward, distance, r2),
    ensures
        r1 == r2,
{
    assert forall|i: int| 0 <= i < r1.len() implies r1[i] == r2[i] by {
        assert(r1[i].chunk =~= r2[i].chunk);
        assert(r1[i].local =~= r2[i].local);
    }
    assert(r1 =~= r2);
}

/// Hits come in order of strictly increasing distance from the ray's origin:
/// a later hit lies at a later coarse step, and its probe point is farther away.
pub proof fn lemma_hits_nearest_first(pos: [i64; 3], forward: [i64; 3], distance: u8, i: int, j: int)
    requires
        ray_ok(pos, forward),
        0 <= i < j < crossings(v3(pos), v3(forward), distance as int).len(),
    ensures
        crossings(v3(pos), v3(forward), distance as int)[i] < crossings(
            v3(pos),
            v3(forward),
            distance as int,
        )[j],
        probe_dist2(v3(forward), crossings(v3(pos), v3(forward), distance as int)[i])
            < probe_dist2(v3(forward), crossings(v3(pos), v3(forward), distance as int)[j]),
{
    let steps = crossings(v3(pos), v3(forward), distance as int);
    lemma_crossings_from_ordered(v3(pos), v3(forward), distance as int, 0);
    let a = steps[i];
    let b = steps[j];
    let d = v3(forward);
    let n = norm2(d);
    assert(n >= 1) by (nonlinear_arith)
        requires
            n == d.0 * d.0 + d.1 * d.1 + d.2 * d.2,
            d.0 != 0 || d.1 != 0 || d.2 != 0,
    ;
    assert(225 * a * a * n < 225 * b * b * n) by (nonlinear_arith)
        requires
            0 < a < b,
            n >= 1,
    ;
}

} // verus!
