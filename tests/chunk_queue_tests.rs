use voxel_core::chunk_queue::{
    ChunkAction, ChunkMap, ChunkQueue, EntityId, QueueError, PLACEHOLDER_BITS,
};

#[test]
fn placeholder_matches_world_placeholder() {
    assert_eq!(
        EntityId::placeholder().bits,
        bevy::ecs::entity::Entity::PLACEHOLDER.to_bits()
    );
    assert_eq!(EntityId::placeholder().bits, PLACEHOLDER_BITS);
}

#[test]
fn map_insert_get_remove() {
    let mut m = ChunkMap::new();
    assert!(!m.contains([1, 2]));
    assert_eq!(m.get_ent([1, 2]), None);
    m.insert_ent([1, 2], EntityId { bits: 7 });
    assert!(m.contains([1, 2]));
    assert!(!m.contains([2, 1]));
    assert_eq!(m.get_ent([1, 2]), Some(EntityId { bits: 7 }));
    m.change_ent([1, 2], EntityId { bits: 9 });
    assert_eq!(m.get_ent([1, 2]), Some(EntityId { bits: 9 }));
    m.remove_ent([1, 2], EntityId { bits: 9 });
    assert!(!m.contains([1, 2]));
}

#[test]
fn map_lists_each_chunk_once() {
    let mut m = ChunkMap::new();
    m.insert_ent([0, 0], EntityId { bits: 1 });
    m.insert_ent([0, 1], EntityId { bits: 2 });
    m.change_ent([0, 0], EntityId { bits: 3 });
    let mut keys = m.iter_keys();
    keys.sort();
    assert_eq!(keys, vec![[0, 0], [0, 1]]);
    let mut all = m.iter();
    all.sort_by_key(|e| e.0);
    assert_eq!(
        all,
        vec![([0, 0], EntityId { bits: 3 }), ([0, 1], EntityId { bits: 2 })]
    );
}

#[test]
fn duplicate_spawn_reserves_once() {
    let mut q = ChunkQueue::new(false);
    let mut m = ChunkMap::new();
    q.queue_spawn([4, -4]);
    q.queue_spawn([4, -4]);
    let acts = q.dequeue_all(&mut m).unwrap();
    assert_eq!(acts, vec![ChunkAction::Spawn([4, -4])]);
    assert_eq!(m.get_ent([4, -4]), Some(EntityId::placeholder()));
    assert_eq!(m.iter_keys().len(), 1);
}

#[test]
fn duplicate_spawn_in_strict_mode_fails() {
    let mut q = ChunkQueue::new(true);
    let mut m = ChunkMap::new();
    q.queue_spawn([4, -4]);
    q.queue_spawn([4, -4]);
    assert_eq!(q.dequeue_all(&mut m), Err(QueueError::SpawnExisting));
}

#[test]
fn despawn_of_missing_chunk() {
    let mut q = ChunkQueue::new(false);
    let mut m = ChunkMap::new();
    q.queue_despawn([1, 1]);
    assert_eq!(q.dequeue_all(&mut m), Ok(vec![]));
    let mut strict = ChunkQueue::new(true);
    strict.queue_despawn([1, 1]);
    assert_eq!(strict.dequeue_all(&mut m), Err(QueueError::DespawnMissing));
}

#[test]
fn despawn_of_live_chunk_releases_it() {
    let mut q = ChunkQueue::new(true);
    let mut m = ChunkMap::new();
    m.insert_ent([2, 3], EntityId { bits: 42 });
    q.queue_despawn([2, 3]);
    assert_eq!(
        q.dequeue_all(&mut m),
        Ok(vec![ChunkAction::Despawn([2, 3], EntityId { bits: 42 })])
    );
    assert!(!m.contains([2, 3]));
    assert_eq!(q.dequeue_all(&mut m), Ok(vec![]));
}

#[test]
fn despawn_of_in_flight_chunk_waits() {
    let mut q = ChunkQueue::new(true);
    let mut m = ChunkMap::new();
    q.queue_spawn([0, 0]);
    q.queue_despawn([0, 0]);
    assert_eq!(q.dequeue_all(&mut m), Ok(vec![ChunkAction::Spawn([0, 0])]));
    // the despawn stays queued until the chunk is live
    assert_eq!(q.dequeue_all(&mut m), Ok(vec![]));
    m.change_ent([0, 0], EntityId { bits: 5 });
    assert_eq!(
        q.dequeue_all(&mut m),
        Ok(vec![ChunkAction::Despawn([0, 0], EntityId { bits: 5 })])
    );
    assert_eq!(q.dequeue_all(&mut m), Ok(vec![]));
}

#[test]
fn requests_run_in_order() {
    let mut q = ChunkQueue::new(false);
    let mut m = ChunkMap::new();
    m.insert_ent([9, 9], EntityId { bits: 1 });
    q.queue_despawn([9, 9]);
    q.queue_spawn([9, 9]);
    q.queue_spawn([8, 8]);
    assert_eq!(
        q.dequeue_all(&mut m),
        Ok(vec![
            ChunkAction::Despawn([9, 9], EntityId { bits: 1 }),
            ChunkAction::Spawn([9, 9]),
            ChunkAction::Spawn([8, 8]),
        ])
    );
    assert_eq!(m.get_ent([9, 9]), Some(EntityId::placeholder()));
}

#[test]
fn strict_failure_keeps_earlier_effects_and_queue() {
    let mut q = ChunkQueue::new(true);
    let mut m = ChunkMap::new();
    q.queue_spawn([1, 0]);
    q.queue_spawn([2, 0]);
    q.queue_spawn([1, 0]);
    assert_eq!(q.dequeue_all(&mut m), Err(QueueError::SpawnExisting));
    // the two spawns before the failing request took effect
    assert_eq!(m.get_ent([1, 0]), Some(EntityId::placeholder()));
    assert_eq!(m.get_ent([2, 0]), Some(EntityId::placeholder()));
    // the requests are all still queued, so the first now fails
    assert_eq!(q.dequeue_all(&mut m), Err(QueueError::SpawnExisting));
}
