use monarch_engine::overworld::ChunkKey;
use monarch_engine::spatial::EntitySpatialIndex;

#[test]
fn entity_spatial_index_does_not_duplicate_stationary_player() {
    let mut index = EntitySpatialIndex::default();
    let entity = 42u64;
    // the player stands at the world origin, in chunk (0, 0, 0), for two updates
    let chunk = ChunkKey { x: 0, y: 0, z: 0 };
    index.upsert(entity, chunk);
    index.upsert(entity, chunk);
    let key = index.chunk_of_entity(entity).unwrap();
    assert_eq!(index.entity_count(key), 1);
}

#[test]
fn a_moving_entity_leaves_its_old_chunk() {
    let mut index = EntitySpatialIndex::default();
    let a = ChunkKey { x: 0, y: 0, z: 0 };
    let b = ChunkKey { x: 1, y: 0, z: 0 };
    index.upsert(1, a);
    index.upsert(2, a);
    index.upsert(1, b);
    assert_eq!(index.chunk_of_entity(1), Some(b));
    assert_eq!(index.chunk_of_entity(2), Some(a));
    assert_eq!(index.entity_count(a), 1);
    assert_eq!(index.entity_count(b), 1);
    index.upsert(2, b);
    assert_eq!(index.entity_count(a), 0);
    assert_eq!(index.entity_count(b), 2);
    assert_eq!(index.chunk_of_entity(3), None);
}
