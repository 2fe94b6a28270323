//! Turns the cells a viewer's ray crosses into a block-change event: the
//! cells to break, or the cells to fill and the blocks they rest against.
use vstd::prelude::*;
use crate::geometry::{
    chunk_in_range, flat_index, get_neighbor, local_in_bounds, one_d_cords, spec_neighbor, Face,
    HEIGHT, LENGTH, WIDTH,
};
use crate::traversal::{
    blocks_in_the_way, is_traversal, ray_ok, TraversalHit, FIXED_ONE, REACH_DISTANCE,
};

verus! {

/// Whether an event removes or adds blocks.
#[derive(Clone, Copy, Debug, PartialEq, Eq, Structural)]
pub enum VoxelChange {
    Added,
    Broken,
}

/// Why a viewer's action produced no event.
#[derive(Clone, Copy, Debug, PartialEq, Eq, Structural)]
pub enum BlockChangeError {
    /// The viewer stands outside the world's vertical range.
    OutOfHeight,
    /// A block would go above the world's top.
    AboveBuildLimit,
    /// A block would go below the world's floor.
    BelowBuildLimit,
}

/// A target cell: its chunk, its local index and, for a placement, the chunk
/// and local index of the block it rests against.
pub type BlockTarget = ([i32; 2], usize, Option<([i32; 2], usize)>);

/// A described edit of the world.
#[derive(Debug)]
pub struct BlockChange {
    pub blocks: Vec<BlockTarget>,
    pub change: VoxelChange,
}

/// Whether a hit names a cell inside a chunk whose neighbours' coordinates fit.
pub open spec fn hit_ok(h: TraversalHit) -> bool {
    local_in_bounds(h.local) && chunk_in_range(h.chunk)
}

pub open spec fn hit_index(h: TraversalHit) -> int {
    flat_index(h.local[0] as int, h.local[1] as int, h.local[2] as int)
}

/// Whether `t` is (`chunk`, `index`, `support`) written over integers.
pub open spec fn target_is(t: BlockTarget, chunk: (int, int), index: int, support: Option<((int, int), int)>) -> bool {
    &&& t.0[0] == chunk.0
    &&& t.0[1] == chunk.1
    &&& t.1 == index
    &&& match support {
        None => t.2.is_none(),
        Some(s) => t.2 matches Some(u) && u.0[0] == s.0.0 && u.0[1] == s.0.1 && u.1 == s.1,
    }
}

/// The chunk and local index of the cell next to a hit across the hit's face,
/// crossing into the neighbouring chunk where needed; `None` above the top or
/// below the floor.
pub open spec fn placed_cell(h: TraversalHit) -> Option<((int, int), int)> {
    let i = hit_index(h);
    let c = (h.chunk[0] as int, h.chunk[1] as int);
    match spec_neighbor(i, h.face) {
        Some(n) => Some((c, n)),
        None => match h.face {
            Face::Top | Face::Bottom => None,
            Face::Right => Some(((c.0 + 1, c.1), i - WIDTH + 1)),
            Face::Left => Some(((c.0 - 1, c.1), i + WIDTH - 1)),
            Face::Back => Some(((c.0, c.1 + 1), i - WIDTH * (LENGTH - 1))),
            Face::Forward => Some(((c.0, c.1 - 1), i + WIDTH * (LENGTH - 1))),
        },
    }
}

/// The error for a hit whose neighbour is out of the world's height.
pub open spec fn limit_error(f: Face) -> BlockChangeError {
    if f == Face::Top {
        BlockChangeError::AboveBuildLimit
    } else {
        BlockChangeError::BelowBuildLimit
    }
}

/// Whether `e` breaks every hit, in order.
pub open spec fn is_break_event(hits: Seq<TraversalHit>, e: BlockChange) -> bool {
    &&& e.change == VoxelChange::Broken
    &&& e.blocks@.len() == hits.len()
    &&& forall|i: int|
        0 <= i < hits.len() ==> target_is(
            #[trigger] e.blocks@[i],
            (hits[i].chunk[0] as int, hits[i].chunk[1] as int),
            hit_index(hits[i]),
            None,
        )
}

/// Whether `e` fills, for each hit after the first in order, the cell across
/// the hit's face, resting against the hit cell.
pub open spec fn is_place_event(hits: Seq<TraversalHit>, e: BlockChange) -> bool {
    &&& e.change == VoxelChange::Added
    &&& hits.len() >= 1 ==> e.blocks@.len() == hits.len() - 1
    &&& hits.len() == 0 ==> e.blocks@.len() == 0
    &&& forall|i: int|
        0 <= i < e.blocks@.len() ==> (placed_cell(hits[i + 1]) matches Some(p) && target_is(
            #[trigger] e.blocks@[i],
            p.0,
            p.1,
            Some(((hits[i + 1].chunk[0] as int, hits[i + 1].chunk[1] as int), hit_index(hits[i + 1]))),
        ))
}

/// Whether every hit after the first has a cell across its face.
pub open spec fn all_placeable(hits: Seq<TraversalHit>) -> bool {
    forall|i: int| 1 <= i < hits.len() ==> (#[trigger] placed_cell(hits[i])).is_some()
}

/// Whether `e` is the error of the first hit after the first without a cell across its face.
pub open spec fn is_first_limit(hits: Seq<TraversalHit>, e: BlockChangeError) -> bool {
    exists|i: int|
        1 <= i < hits.len() && (#[trigger] placed_cell(hits[i])).is_none() && e == limit_error(
            hits[i].face,
        ) && forall|j: int| 1 <= j < i ==> (#[trigger] placed_cell(hits[j])).is_some()
}

/// What placing against every hit after the first gives.
pub open spec fn is_place_result(hits: Seq<TraversalHit>, r: Result<BlockChange, BlockChangeError>) -> bool {
    match r {
        Ok(e) => all_placeable(hits) && is_place_event(hits, e),
        Err(e) => !all_placeable(hits) && is_first_limit(hits, e),
    }
}

/// The target that placing against hit `h` fills.
pub fn place_target(h: TraversalHit) -> (r: Result<BlockTarget, BlockChangeError>)
    requires
        hit_ok(h),
    ensures
        match r {
            Ok(t) => (placed_cell(h) matches Some(p) && target_is(
                t,
                p.0,
                p.1,
                Some(((h.chunk[0] as int, h.chunk[1] as int), hit_index(h))),
            )),
            Err(e) => placed_cell(h).is_none() && e == limit_error(h.face),
        },
{
    let x = h.chunk;
    let tmp = one_d_cords(h.local);
    match get_neighbor(tmp, h.face) {
        Some(block) => Ok((x, block, Some((x, tmp)))),
        None => {
            proof {
                crate::geometry::lemma_flatten_bijective(h.local, tmp as int);
                let c = crate::geometry::unflat(tmp as int);
                assert(c == (h.local[0] as int, h.local[1] as int, h.local[2] as int));
                assert(spec_neighbor(tmp as int, h.face).is_none());
                if h.face == Face::Right {
                    assert(h.local[0] == WIDTH - 1);
                }
                if h.face == Face::Back {
                    assert(h.local[2] == LENGTH - 1);
                }
                if h.face == Face::Left {
                    assert(h.local[0] == 0);
                }
                if h.face == Face::Forward {
                    assert(h.local[2] == 0);
                }
            }
            match h.face {
                Face::Top => Err(BlockChangeError::AboveBuildLimit),
                Face::Bottom => Err(BlockChangeError::BelowBuildLimit),
                Face::Right => Ok(([x[0] + 1, x[1]], tmp + 1 - WIDTH, Some((x, tmp)))),
                Face::Left => Ok(([x[0] - 1, x[1]], tmp + WIDTH - 1, Some((x, tmp)))),
                Face::Back => Ok(([x[0], x[1] + 1], tmp - WIDTH * (LENGTH - 1), Some((x, tmp)))),
                Face::Forward => Ok(([x[0], x[1] - 1], tmp + WIDTH * (LENGTH - 1), Some((x, tmp)))),
            }
        },
    }
}

/// The event that breaks every hit cell, nearest first.
pub fn resolve_break(hits: &Vec<TraversalHit>) -> (r: BlockChange)
    requires
        forall|i: int| 0 <= i < hits@.len() ==> hit_ok(#[trigger] hits@[i]),
    ensures
        is_break_event(hits@, r),
{
    let mut blocks: Vec<BlockTarget> = Vec::new();
    let mut i: usize = 0;
    while i < hits.len()
        invariant
            i <= hits@.len(),
            forall|j: int| 0 <= j < hits@.len() ==> hit_ok(#[trigger] hits@[j]),
            blocks@.len() == i,
            forall|j: int|
                0 <= j < i ==> target_is(
                    #[trigger] blocks@[j],
                    (hits@[j].chunk[0] as int, hits@[j].chunk[1] as int),
                    hit_index(hits@[j]),
                    None,
                ),
        decreases hits@.len() - i,
    {
        let h = hits[i];
        blocks.push((h.chunk, one_d_cords(h.local), None));
        i += 1;
    }
    BlockChange { blocks, change: VoxelChange::Broken }
}

/// The event that fills, for every hit after the first, the cell across the
/// hit's face; an error names the first hit whose neighbour lies above the
/// top or below the floor of the world.
pub fn resolve_place(hits: &Vec<TraversalHit>) -> (r: Result<BlockChange, BlockChangeError>)
    requires
        forall|i: int| 0 <= i < hits@.len() ==> hit_ok(#[trigger] hits@[i]),
    ensures
        is_place_result(hits@, r),
{
    let mut blocks: Vec<BlockTarget> = Vec::new();
    let mut i: usize = 1;
    while i < hits.len()
        invariant
            1 <= i,
            hits@.len() >= 1 ==> i <= hits@.len(),
            hits@.len() == 0 ==> i == 1,
            forall|j: int| 0 <= j < hits@.len() ==> hit_ok(#[trigger] hits@[j]),
            blocks@.len() == i - 1,
            forall|j: int| 1 <= j < i && j < hits@.len() ==> (#[trigger] placed_cell(hits@[j])).is_some(),
            forall|j: int|
                0 <= j < blocks@.len() ==> (placed_cell(hits@[j + 1]) matches Some(p) && target_is(
                    #[trigger] blocks@[j],
                    p.0,
                    p.1,
                    Some(
                        (
                            (hits@[j + 1].chunk[0] as int, hits@[j + 1].chunk[1] as int),
                            hit_index(hits@[j + 1]),
                        ),
                    ),
                )),
        decreases hits@.len() - i,
    {
        match place_target(hits[i]) {
            Ok(t) => {
                blocks.push(t);
            },
            Err(e) => {
                assert(is_first_limit(hits@, e)) by {
                    assert(placed_cell(hits@[i as int]).is_none());
                }
                return Err(e);
            },
        }
        i += 1;
    }
    Ok(BlockChange { blocks, change: VoxelChange::Added })
}

/// Whether a viewer at fixed-point height `y` stands inside the world's vertical range.
pub open spec fn height_ok(y: int) -> bool {
    0 <= y <= HEIGHT * FIXED_ONE
}

/// What a viewer at `pos` looking along fine step `forward` does when the
/// primary (`break_pressed`) and secondary (`place_pressed`) actions fire:
/// a break event, then a place event, for the pressed actions in that order.
/// A viewer outside the world's vertical range gets `OutOfHeight` when an
/// action fires.
pub fn add_break_detector(break_pressed: bool, place_pressed: bool, pos: [i64; 3], forward: [i64; 3]) -> (r: Result<Vec<BlockChange>, BlockChangeError>)
    requires
        ray_ok(pos, forward),
    ensures
        !break_pressed && !place_pressed ==> (r matches Ok(v) && v@.len() == 0),
        (break_pressed || place_pressed) && !height_ok(pos[1] as int) ==> r == Err::<
            Vec<BlockChange>,
            BlockChangeError,
        >(BlockChangeError::OutOfHeight),
        (break_pressed || place_pressed) && height_ok(pos[1] as int) ==> exists|
            hits: Seq<TraversalHit>,
        |
            #![trigger is_traversal(pos, forward, REACH_DISTANCE, hits)]
            is_traversal(pos, forward, REACH_DISTANCE, hits) && match r {
                Ok(v) => {
                    &&& v@.len() == (if break_pressed { 1int } else { 0 }) + (if place_pressed {
                        1int
                    } else {
                        0
                    })
                    &&& break_pressed ==> is_break_event(hits, v@[0])
                    &&& place_pressed ==> all_placeable(hits) && is_place_event(
                        hits,
                        v@[v@.len() - 1],
                    )
                },
                Err(e) => place_pressed && !all_placeable(hits) && is_first_limit(hits, e),
            },
{
    let mut events: Vec<BlockChange> = Vec::new();
    if !break_pressed && !place_pressed {
        return Ok(events);
    }
    if pos[1] > HEIGHT as i64 * FIXED_ONE || pos[1] < 0 {
        return Err(BlockChangeError::OutOfHeight);
    }
    let hits = blocks_in_the_way(pos, forward, REACH_DISTANCE);
    if break_pressed {
        events.push(resolve_break(&hits));
    }
    if place_pressed {
        match resolve_place(&hits) {
            Ok(e) => events.push(e),
            Err(e) => return Err(e),
        }
    }
    Ok(events)
}

/// Over the same hits, placing skips exactly the first hit: it targets one
/// cell fewer than breaking, and its `i`-th target rests against the cell
/// that breaking lists `(i + 1)`-th.
pub proof fn lemma_place_skips_first(hits: Seq<TraversalHit>, broken: BlockChange, placed: BlockChange)
    requires
        hits.len() >= 2,
        is_break_event(hits, broken),
        is_place_result(hits, Ok(placed)),
    ensures
        placed.blocks@.len() + 1 == broken.blocks@.len(),
        forall|i: int|
            0 <= i < placed.blocks@.len() ==> (#[trigger] placed.blocks@[i]).2 == Some(
                (broken.blocks@[i + 1].0, broken.blocks@[i + 1].1),
            ),
{
    assert forall|i: int| 0 <= i < placed.blocks@.len() implies (
    #[trigger] placed.blocks@[i]).2 == Some((broken.blocks@[i + 1].0, broken.blocks@[i + 1].1)) by {
        let b = broken.blocks@[i + 1];
        assert(target_is(
            b,
            (hits[i + 1].chunk[0] as int, hits[i + 1].chunk[1] as int),
            hit_index(hits[i + 1]),
            None,
        ));
        let u = placed.blocks@[i].2.unwrap();
        assert(u.0 =~= b.0);
    }
}

} // verus!
