//! The registry of live chunks and the queue of chunk spawn/despawn requests.
use vstd::prelude::*;
use bevy::ecs::entity::Entity;
use bevy::utils::HashMap;

verus! {

/// Bits of the world's placeholder entity handle, meaning "reserved, not yet
/// materialized".
pub const PLACEHOLDER_BITS: u64 = 0xFFFF_FFFF;

/// A world entity handle, held as its bits.
#[derive(Clone, Copy, Debug, PartialEq, Eq, Structural)]
pub struct EntityId {
    pub bits: u64,
}

impl EntityId {
    /// The placeholder handle.
    pub fn placeholder() -> (r: EntityId)
        ensures
            r.bits == PLACEHOLDER_BITS,
    {
        EntityId { bits: placeholder_bits() }
    }
}

/// Relies on `Entity::PLACEHOLDER` and `Entity::to_bits`: the placeholder is
/// index `u32::MAX` with generation 0, whose bits are `0xFFFF_FFFF`.
#[verifier::external_body]
fn placeholder_bits() -> (r: u64)
    ensures
        r == PLACEHOLDER_BITS,
{
    Entity::PLACEHOLDER.to_bits()
}

/// Key of a chunk coordinate in the registry's model.
pub open spec fn key(c: [i32; 2]) -> (i32, i32) {
    (c[0], c[1])
}

/// A hash map from chunk coordinates to world entities.
#[verifier::external_body]
pub struct EntityTable {
    map: HashMap<[i32; 2], Entity>,
}

/// What an `EntityTable` holds: entity bits by chunk coordinate.
pub uninterp spec fn table_contents(t: EntityTable) -> Map<(i32, i32), u64>;

impl EntityTable {
    /// Relies on `HashMap::default`: a new map is empty.
    #[verifier::external_body]
    fn new() -> (r: EntityTable)
        ensures
            table_contents(r).dom().len() == 0,
            table_contents(r).dom().finite(),
    {
        EntityTable { map: HashMap::default() }
    }

    /// Relies on `HashMap::get`: the value stored under the key, if any.
    #[verifier::external_body]
    fn get(&self, c: [i32; 2]) -> (r: Option<u64>)
        ensures
            match r {
                Some(b) => table_contents(*self).contains_key(key(c)) && table_contents(*self)[key(
                    c,
                )] == b,
                None => !table_contents(*self).contains_key(key(c)),
            },
    {
        self.map.get(&c).map(|e| e.to_bits())
    }

    /// Relies on `HashMap::contains_key`: whether the key is stored.
    #[verifier::external_body]
    fn contains_key(&self, c: [i32; 2]) -> (r: bool)
        ensures
            r == table_contents(*self).contains_key(key(c)),
    {
        self.map.contains_key(&c)
    }

    /// Relies on `HashMap::insert`: the key maps to the value afterwards, and
    /// nothing else changes.
    #[verifier::external_body]
    fn insert(&mut self, c: [i32; 2], bits: u64)
        ensures
            table_contents(*final(self)) == table_contents(*old(self)).insert(key(c), bits),
    {
        self.map.insert(c, Entity::from_bits(bits));
    }

    /// Relies on `HashMap::remove`: the value that was stored under the key,
    /// which is gone afterwards, and nothing else changes.
    #[verifier::external_body]
    fn remove(&mut self, c: [i32; 2]) -> (r: Option<u64>)
        ensures
            table_contents(*final(self)) == table_contents(*old(self)).remove(key(c)),
            match r {
                Some(b) => table_contents(*old(self)).contains_key(key(c)) && table_contents(
                    *old(self),
                )[key(c)] == b,
                None => !table_contents(*old(self)).contains_key(key(c)),
            },
    {
        self.map.remove(&c).map(|e| e.to_bits())
    }

    /// Relies on `HashMap::iter`: each stored entry once, in an order that
    /// the map chooses.
    #[verifier::external_body]
    fn entries(&self) -> (r: Vec<([i32; 2], u64)>)
        ensures
            forall|i: int|
                0 <= i < r@.len() ==> table_contents(*self).contains_key(key(#[trigger] r@[i].0))
                    && table_contents(*self)[key(r@[i].0)] == r@[i].1,
            forall|k: (i32, i32)|
                #[trigger] table_contents(*self).contains_key(k) ==> exists|i: int|
                    0 <= i < r@.len() && key(#[trigger] r@[i].0) == k,
            forall|i: int, j: int|
                0 <= i < j < r@.len() ==> key(#[trigger] r@[i].0) != key(#[trigger] r@[j].0),
    {
        self.map.iter().map(|(c, e)| (*c, e.to_bits())).collect()
    }
}

/// The registry of chunks that have a live or in-flight world entity.
pub struct ChunkMap {
    pos_to_ent: EntityTable,
}

impl View for ChunkMap {
    type V = Map<(i32, i32), u64>;

    closed spec fn view(&self) -> Map<(i32, i32), u64> {
        table_contents(self.pos_to_ent)
    }
}

impl ChunkMap {
    /// An empty registry.
    pub fn new() -> (r: ChunkMap)
        ensures
            r@ == Map::<(i32, i32), u64>::empty(),
    {
        let t = EntityTable::new();
        proof {
            assert(table_contents(t).dom() =~= Set::<(i32, i32)>::empty());
            assert(table_contents(t) =~= Map::<(i32, i32), u64>::empty());
        }
        ChunkMap { pos_to_ent: t }
    }

    /// The entity registered for a chunk, if any.
    pub fn get_ent(&self, cords: [i32; 2]) -> (r: Option<EntityId>)
        ensures
            match r {
                Some(e) => self@.contains_key(key(cords)) && self@[key(cords)] == e.bits,
                None => !self@.contains_key(key(cords)),
            },
    {
        match self.pos_to_ent.get(cords) {
            Some(b) => Some(EntityId { bits: b }),
            None => None,
        }
    }

    /// Registers `ent` for a chunk that has no entry yet.
    pub fn insert_ent(&mut self, cords: [i32; 2], ent: EntityId)
        requires
            !old(self)@.contains_key(key(cords)),
        ensures
            final(self)@ == old(self)@.insert(key(cords), ent.bits),
    {
        self.pos_to_ent.insert(cords, ent.bits);
    }

    /// Removes the entry of a chunk, which must be `ent`.
    pub fn remove_ent(&mut self, cords: [i32; 2], ent: EntityId)
        requires
            old(self)@.contains_key(key(cords)),
            old(self)@[key(cords)] == ent.bits,
        ensures
            final(self)@ == old(self)@.remove(key(cords)),
    {
        let _removed = self.pos_to_ent.remove(cords);
    }

    /// Whether a chunk has an entry.
    pub fn contains(&self, cords: [i32; 2]) -> (r: bool)
        ensures
            r == self@.contains_key(key(cords)),
    {
        self.pos_to_ent.contains_key(cords)
    }

    /// The registered chunk coordinates, each once, in no fixed order.
    pub fn iter_keys(&self) -> (r: Vec<[i32; 2]>)
        ensures
            forall|i: int| 0 <= i < r@.len() ==> self@.contains_key(key(#[trigger] r@[i])),
            forall|k: (i32, i32)|
                #[trigger] self@.contains_key(k) ==> exists|i: int|
                    0 <= i < r@.len() && key(#[trigger] r@[i]) == k,
            forall|i: int, j: int|
                0 <= i < j < r@.len() ==> key(#[trigger] r@[i]) != key(#[trigger] r@[j]),
    {
        let all = self.pos_to_ent.entries();
        let mut out: Vec<[i32; 2]> = Vec::new();
        let mut i: usize = 0;
        while i < all.len()
            invariant
                i <= all@.len(),
                out@.len() == i,
                forall|j: int| 0 <= j < i ==> #[trigger] out@[j] == all@[j].0,
            decreases all@.len() - i,
        {
            out.push(all[i].0);
            i += 1;
        }
        assert forall|k: (i32, i32)| #[trigger] self@.contains_key(k) implies exists|i: int|
            0 <= i < out@.len() && key(#[trigger] out@[i]) == k by {
            let i = choose|i: int| 0 <= i < all@.len() && key(#[trigger] all@[i].0) == k;
            assert(key(out@[i]) == k);
        }
        assert forall|i: int, j: int| 0 <= i < j < out@.len() implies key(#[trigger] out@[i])
            != key(#[trigger] out@[j]) by {
            assert(key(all@[i].0) != key(all@[j].0));
        }
        out
    }

    /// The registered chunks with their entities, each chunk once, in no fixed order.
    pub fn iter(&self) -> (r: Vec<([i32; 2], EntityId)>)
        ensures
            forall|i: int|
                0 <= i < r@.len() ==> self@.contains_key(key(#[trigger] r@[i].0)) && self@[key(
                    r@[i].0,
                )] == r@[i].1.bits,
            forall|k: (i32, i32)|
                #[trigger] self@.contains_key(k) ==> exists|i: int|
                    0 <= i < r@.len() && key(#[trigger] r@[i].0) == k,
            forall|i: int, j: int|
                0 <= i < j < r@.len() ==> key(#[trigger] r@[i].0) != key(#[trigger] r@[j].0),
    {
        let all = self.pos_to_ent.entries();
        let mut out: Vec<([i32; 2], EntityId)> = Vec::new();
        let mut i: usize = 0;
        while i < all.len()
            invariant
                i <= all@.len(),
                out@.len() == i,
                forall|j: int|
                    0 <= j < i ==> (#[trigger] out@[j]).0 == all@[j].0 && out@[j].1.bits
                        == all@[j].1,
            decreases all@.len() - i,
        {
            out.push((all[i].0, EntityId { bits: all[i].1 }));
            i += 1;
        }
        assert forall|k: (i32, i32)| #[trigger] self@.contains_key(k) implies exists|i: int|
            0 <= i < out@.len() && key(#[trigger] out@[i].0) == k by {
            let i = choose|i: int| 0 <= i < all@.len() && key(#[trigger] all@[i].0) == k;
            assert(key(out@[i].0) == k);
        }
        assert forall|i: int, j: int| 0 <= i < j < out@.len() implies key(#[trigger] out@[i].0)
            != key(#[trigger] out@[j].0) by {
            assert(key(all@[i].0) != key(all@[j].0));
        }
        out
    }

    /// Replaces the entity of a chunk that has an entry.
    pub fn change_ent(&mut self, cords: [i32; 2], ent: EntityId)
        requires
            old(self)@.contains_key(key(cords)),
        ensures
            final(self)@ == old(self)@.insert(key(cords), ent.bits),
    {
        self.pos_to_ent.insert(cords, ent.bits);
    }
}

/// What the caller does for one drained request.
#[derive(Clone, Copy, Debug, PartialEq, Eq)]
pub enum ChunkAction {
    /// Submit the generation task of the chunk; its placeholder entry is in the registry.
    Spawn([i32; 2]),
    /// Despawn the chunk's entity; its entry has left the registry.
    Despawn([i32; 2], EntityId),
}

/// A request that contradicts the registry, in strict mode.
#[derive(Clone, Copy, Debug, PartialEq, Eq, Structural)]
pub enum QueueError {
    /// A despawn for a chunk without an entry.
    DespawnMissing,
    /// A spawn for a chunk that already has an entry.
    SpawnExisting,
}

/// Registry, actions and re-queued requests after a drain.
pub type Drained = (Map<(i32, i32), u64>, Seq<ChunkAction>, Seq<([i32; 2], bool)>);

/// Draining the requests `q` (`true` to spawn) in order against registry `m`.
///
/// A despawn of a chunk whose entry is still the placeholder is kept for the
/// next drain, since its generation task has not finished.
pub open spec fn drain(m: Map<(i32, i32), u64>, q: Seq<([i32; 2], bool)>, strict: bool) -> Result<Drained, QueueError>
    decreases q.len(),
{
    if q.len() == 0 {
        Ok((m, Seq::empty(), Seq::empty()))
    } else {
        match drain(m, q.drop_last(), strict) {
            Err(e) => Err(e),
            Ok(d) => {
                let m1 = d.0;
                let c = q.last().0;
                let k = key(c);
                if !q.last().1 {
                    if !m1.contains_key(k) {
                        if strict {
                            Err(QueueError::DespawnMissing)
                        } else {
                            Ok(d)
                        }
                    } else if m1[k] == PLACEHOLDER_BITS {
                        Ok((m1, d.1, d.2.push(q.last())))
                    } else {
                        Ok((m1.remove(k), d.1.push(ChunkAction::Despawn(c, EntityId { bits: m1[k] })), d.2))
                    }
                } else if m1.contains_key(k) {
                    if strict {
                        Err(QueueError::SpawnExisting)
                    } else {
                        Ok(d)
                    }
                } else {
                    Ok((m1.insert(k, PLACEHOLDER_BITS), d.1.push(ChunkAction::Spawn(c)), d.2))
                }
            },
        }
    }
}

proof fn lemma_drain_err_extends(m: Map<(i32, i32), u64>, q: Seq<([i32; 2], bool)>, strict: bool, n: int)
    requires
        0 <= n <= q.len(),
        drain(m, q.take(n), strict) is Err,
    ensures
        drain(m, q, strict) == drain(m, q.take(n), strict),
    decreases q.len() - n,
{
    if n < q.len() {
        assert(q.take(n + 1).drop_last() =~= q.take(n));
        lemma_drain_err_extends(m, q, strict, n + 1);
    } else {
        assert(q.take(n) =~= q);
    }
}

/// Whether some request of `q` fails while `m2` is the registry after the
/// requests before it.
pub open spec fn failed_at(m: Map<(i32, i32), u64>, q: Seq<([i32; 2], bool)>, strict: bool, m2: Map<(i32, i32), u64>) -> bool {
    exists|n: int|
        0 <= n < q.len() && (#[trigger] drain(m, q.take(n), strict) matches Ok(d) && d.0 == m2)
            && drain(m, q.take(n + 1), strict) is Err
}

/// Pending chunk requests, drained against a `ChunkMap`.
pub struct ChunkQueue {
    queue: Vec<([i32; 2], bool)>,
    /// Whether a request that contradicts the registry is an error rather than ignored.
    pub panic_when_cant_find_chunk: bool,
}

impl View for ChunkQueue {
    /// The pending requests, oldest first, and whether the queue is strict.
    type V = (Seq<([i32; 2], bool)>, bool);

    closed spec fn view(&self) -> (Seq<([i32; 2], bool)>, bool) {
        (self.queue@, self.panic_when_cant_find_chunk)
    }
}

impl ChunkQueue {
    /// An empty queue in strict (`true`) or lenient mode.
    pub fn new(panic_when_cant_find_chunk: bool) -> (r: ChunkQueue)
        ensures
            r@ == (Seq::<([i32; 2], bool)>::empty(), panic_when_cant_find_chunk),
    {
        ChunkQueue { queue: Vec::new(), panic_when_cant_find_chunk }
    }

    /// Queues a spawn request.
    pub fn queue_spawn(&mut self, pos: [i32; 2])
        ensures
            final(self)@ == (old(self)@.0.push((pos, true)), old(self)@.1),
    {
        self.queue.push((pos, true));
    }

    /// Queues a despawn request.
    pub fn queue_despawn(&mut self, pos: [i32; 2])
        ensures
            final(self)@ == (old(self)@.0.push((pos, false)), old(self)@.1),
    {
        self.queue.push((pos, false));
    }

    /// Drains every queued request in order against `chunk_map` and returns
    /// what the caller must do: submit a generation task for each spawned
    /// chunk, despawn the entity of each despawned one. Despawns of chunks
    /// still in flight stay queued.
    pub fn dequeue_all(&mut self, chunk_map: &mut ChunkMap) -> (r: Result<Vec<ChunkAction>, QueueError>)
        ensures
            final(self)@.1 == old(self)@.1,
            match r {
                Ok(acts) => drain(old(chunk_map)@, old(self)@.0, old(self)@.1) == Ok::<
                    Drained,
                    QueueError,
                >((final(chunk_map)@, acts@, final(self)@.0)),
                Err(e) => {
                    &&& drain(old(chunk_map)@, old(self)@.0, old(self)@.1) == Err::<
                        Drained,
                        QueueError,
                    >(e)
                    &&& final(self)@ == old(self)@
                    &&& failed_at(old(chunk_map)@, old(self)@.0, old(self)@.1, final(chunk_map)@)
                },
            },
    {
        let ghost m0 = chunk_map@;
        let ghost q0 = self.queue@;
        let strict = self.panic_when_cant_find_chunk;
        let mut acts: Vec<ChunkAction> = Vec::new();
        let mut kept: Vec<([i32; 2], bool)> = Vec::new();
        let mut i: usize = 0;
        assert(q0.take(0) =~= Seq::<([i32; 2], bool)>::empty());
        while i < self.queue.len()
            invariant
                i <= self.queue@.len(),
                self.queue@ == q0,
                strict == self.panic_when_cant_find_chunk,
                m0 == old(chunk_map)@,
                q0 == old(self)@.0,
                strict == old(self)@.1,
                drain(m0, q0.take(i as int), strict) == Ok::<Drained, QueueError>((chunk_map@, acts@, kept@)),
            decreases self.queue@.len() - i,
        {
            let (c, spawn) = self.queue[i];
            assert(q0.take(i + 1).drop_last() =~= q0.take(i as int));
            assert(q0.take(i + 1).last() == q0[i as int]);
            assert(q0[i as int] == (c, spawn));
            if !spawn {
                match chunk_map.get_ent(c) {
                    Some(e) => {
                        if e.bits == PLACEHOLDER_BITS {
                            kept.push((c, spawn));
                        } else {
                            chunk_map.remove_ent(c, e);
                            acts.push(ChunkAction::Despawn(c, e));
                        }
                    },
                    None => {
                        if strict {
                            proof {
                                assert(drain(m0, q0.take(i + 1), strict) == Err::<
                                    Drained,
                                    QueueError,
                                >(QueueError::DespawnMissing));
                                lemma_drain_err_extends(m0, q0, strict, i + 1);
                                assert(drain(m0, q0.take(i as int), strict) matches Ok(d) && d.0
                                    == chunk_map@);
                            }
                            return Err(QueueError::DespawnMissing);
                        }
                    },
                }
            } else if chunk_map.contains(c) {
                if strict {
                    proof {
                        assert(drain(m0, q0.take(i + 1), strict) == Err::<Drained, QueueError>(
                            QueueError::SpawnExisting,
                        ));
                        lemma_drain_err_extends(m0, q0, strict, i + 1);
                        assert(drain(m0, q0.take(i as int), strict) matches Ok(d) && d.0
                            == chunk_map@);
                    }
                    return Err(QueueError::SpawnExisting);
                }
            } else {
                chunk_map.insert_ent(c, EntityId::placeholder());
                acts.push(ChunkAction::Spawn(c));
            }
            i += 1;
        }
        assert(q0.take(i as int) =~= q0);
        self.queue = kept;
        Ok(acts)
    }
}

/// Two spawn requests for a chunk without an entry, drained in lenient mode,
/// reserve the chunk once and submit one generation task.
pub proof fn lemma_duplicate_spawn_once(m: Map<(i32, i32), u64>, c: [i32; 2])
    requires
        !m.contains_key(key(c)),
    ensures
        drain(m, seq![(c, true), (c, true)], false) == Ok::<Drained, QueueError>(
            (m.insert(key(c), PLACEHOLDER_BITS), seq![ChunkAction::Spawn(c)], Seq::empty()),
        ),
{
    let q = seq![(c, true), (c, true)];
    let q1 = seq![(c, true)];
    assert(q.drop_last() =~= q1);
    assert(q1.drop_last() =~= Seq::<([i32; 2], bool)>::empty());
    assert(drain(m, Seq::empty(), false) == Ok::<Drained, QueueError>(
        (m, Seq::empty(), Seq::empty()),
    ));
    assert(q1.last() == (c, true));
    assert(q.last() == (c, true));
    assert(drain(m, q1, false) == Ok::<Drained, QueueError>(
        (m.insert(key(c), PLACEHOLDER_BITS), Seq::<ChunkAction>::empty().push(ChunkAction::Spawn(c)), Seq::empty()),
    ));
    assert(Seq::<ChunkAction>::empty().push(ChunkAction::Spawn(c)) =~= seq![ChunkAction::Spawn(c)]);
}

/// A change made to the registry, for reasoning about sequences of them.
pub enum MapOp {
    Insert([i32; 2], u64),
    Remove([i32; 2]),
}

/// The registry after `ops`, applied in order to `m`.
pub open spec fn apply_ops(m: Map<(i32, i32), u64>, ops: Seq<MapOp>) -> Map<(i32, i32), u64>
    decreases ops.len(),
{
    if ops.len() == 0 {
        m
    } else {
        let prev = apply_ops(m, ops.drop_last());
        match ops.last() {
            MapOp::Insert(c, b) => prev.insert(key(c), b),
            MapOp::Remove(c) => prev.remove(key(c)),
        }
    }
}

/// Whether the last change that `ops` made to chunk `k` is an insertion.
pub open spec fn inserted_last(ops: Seq<MapOp>, k: (i32, i32)) -> bool
    decreases ops.len(),
{
    if ops.len() == 0 {
        false
    } else {
        match ops.last() {
            MapOp::Insert(c, _) => key(c) == k || inserted_last(ops.drop_last(), k),
            MapOp::Remove(c) => key(c) != k && inserted_last(ops.drop_last(), k),
        }
    }
}

/// Starting from an empty registry, a chunk has an entry after a sequence of
/// insertions and removals exactly when it was inserted and not removed since.
pub proof fn lemma_entry_iff_inserted(ops: Seq<MapOp>, k: (i32, i32))
    ensures
        apply_ops(Map::empty(), ops).contains_key(k) == inserted_last(ops, k),
    decreases ops.len(),
{
    if ops.len() > 0 {
        lemma_entry_iff_inserted(ops.drop_last(), k);
    }
}

} // verus!
