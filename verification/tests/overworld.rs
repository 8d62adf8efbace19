use monarch_engine::overworld::{
    active_chunk_keys, build_asset_specs, chunk_rng_seed, id_order, mix_seed, plan_stream, select_theme, AssetSpec,
    BaseLayer, BaseMaterial, ChunkKey, ChunkMutation, ChunkTheme, ChunkView, CollisionKind, InteractionKind,
    ProcAssetKind, SurfaceTraversal, WorldObjectId, DEFAULT_MAX_PROC_ASSETS_PER_CHUNK, DEFAULT_WORLD_SEED,
};

fn key(x: i32, y: i32) -> ChunkKey {
    ChunkKey { x, y, z: 0 }
}

/// Everything about a chunk that does not depend on where its objects are placed.
fn plan(k: ChunkKey) -> (ChunkTheme, BaseLayer, Vec<AssetSpec>, [u8; 32]) {
    let theme = select_theme(DEFAULT_WORLD_SEED, k);
    let specs = build_asset_specs(DEFAULT_WORLD_SEED, DEFAULT_MAX_PROC_ASSETS_PER_CHUNK, k, theme);
    (theme, theme.base_layer(), specs, chunk_rng_seed(DEFAULT_WORLD_SEED, k))
}

#[test]
fn same_seed_and_chunk_key_produce_same_chunk() {
    let k = ChunkKey { x: 2, y: -3, z: 0 };
    let first = plan(k);
    let second = plan(k);
    assert_eq!(first, second);
}

#[test]
fn generation_order_does_not_change_chunk_output() {
    let a_key = ChunkKey { x: -1, y: 4, z: 0 };
    let b_key = ChunkKey { x: 3, y: -2, z: 0 };
    let a_then_b = (plan(a_key), plan(b_key));
    let b_then_a = (plan(b_key), plan(a_key));
    assert_eq!(a_then_b.0, b_then_a.1);
    assert_eq!(a_then_b.1, b_then_a.0);
}

#[test]
fn chunk_mutation_filters_removed_assets() {
    let k = ChunkKey::origin();
    let (_, _, mut specs, _) = plan(k);
    specs.sort_by_key(|s| s.id.0);
    let removed = specs[0].id;
    let len_before = specs.len();
    let mut mutation = ChunkMutation::default();
    mutation.remove_object(removed);
    let visible: Vec<&AssetSpec> = specs.iter().filter(|s| !mutation.is_removed(s.id)).collect();
    assert_eq!(visible.len(), len_before - 1);
    assert!(visible.iter().all(|s| s.id != removed));
}

#[test]
fn themes_have_their_ground() {
    assert_eq!(ChunkTheme::Ocean.base_layer(), BaseLayer::new(BaseMaterial::Water, SurfaceTraversal::Swim));
    assert_eq!(ChunkTheme::Dark.base_layer(), BaseLayer::new(BaseMaterial::DarkSoil, SurfaceTraversal::Walk));
    assert_eq!(ChunkTheme::GrassPlane.base_layer().material, BaseMaterial::Grass);
    assert_eq!(ChunkTheme::Cave.base_layer().material, BaseMaterial::Stone);
}

#[test]
fn rocks_and_trees_block_and_bushes_break() {
    assert_eq!(ProcAssetKind::Rock.collision(), CollisionKind::Blocking);
    assert_eq!(ProcAssetKind::Tree.collision(), CollisionKind::Blocking);
    assert_eq!(ProcAssetKind::Bush.collision(), CollisionKind::Passable);
    assert_eq!(ProcAssetKind::Bush.interaction(), InteractionKind::Destructible);
    assert_eq!(ProcAssetKind::Rock.interaction(), InteractionKind::Inert);
    assert_eq!(ProcAssetKind::DirtPatch.interaction(), InteractionKind::Inert);
}

#[test]
fn mutation_keeps_ids_sorted_and_unique() {
    let mut m = ChunkMutation::default();
    for id in [50u64, 3, 99, 3, 7, 50] {
        m.remove_object(WorldObjectId(id));
    }
    let ids: Vec<u64> = m.removed_object_ids.iter().map(|i| i.0).collect();
    assert_eq!(ids, vec![3, 7, 50, 99]);
    assert!(m.is_removed(WorldObjectId(7)));
    assert!(!m.is_removed(WorldObjectId(8)));
}

#[test]
fn mix_seed_known_values() {
    assert_eq!(mix_seed(7, key(0, 0)), 7);
    assert_eq!(mix_seed(7, key(2, -3)), 18446744070795711486);
    assert_eq!(mix_seed(0, ChunkKey { x: 1, y: 1, z: 1 }), 3647872507);
}

#[test]
fn origin_is_always_grass_and_other_chunks_follow_the_seed() {
    assert_eq!(select_theme(12345, ChunkKey::origin()), ChunkTheme::GrassPlane);
    assert_eq!(select_theme(7, key(2, -3)), ChunkTheme::Cave);
    assert_eq!(select_theme(7, key(-1, 4)), ChunkTheme::GrassPlane);
    assert_eq!(select_theme(7, key(5, 5)), ChunkTheme::Dark);
    assert_eq!(select_theme(7, key(-5, -3)), ChunkTheme::Ocean);
}

#[test]
fn land_chunks_get_a_rock_a_bush_and_cycling_kinds() {
    let specs = build_asset_specs(7, 6, key(2, -3), ChunkTheme::Cave);
    assert_eq!(specs.len(), 6);
    assert_eq!(specs[0].kind, ProcAssetKind::Rock);
    assert_eq!((specs[0].intensity, specs[0].variant), (0, 2));
    assert_eq!(specs[1].kind, ProcAssetKind::Bush);
    assert_eq!((specs[1].intensity, specs[1].variant), (1, 3));
    // |2| + |-3| = 5, offset 2: index 2 gives (2 + 2) % 4 = 0, grass
    assert_eq!(specs[2].kind, ProcAssetKind::Grass);
    assert_eq!(specs[3].kind, ProcAssetKind::Tree);
    assert_eq!(specs[4].kind, ProcAssetKind::DirtPatch);
    assert_eq!(specs[5].kind, ProcAssetKind::Bush);
    assert_eq!((specs[5].intensity, specs[5].variant), (5, 1));
    let fewer = build_asset_specs(7, 0, key(2, -3), ChunkTheme::Cave);
    assert_eq!(fewer.len(), 2);
}

#[test]
fn ocean_chunks_get_at_most_one_rock() {
    let specs = build_asset_specs(7, 6, key(-5, -3), ChunkTheme::Ocean);
    assert_eq!(specs.len(), 1);
    assert_eq!(specs[0].kind, ProcAssetKind::Rock);
    assert_eq!(specs[0].variant, 1);
}

#[test]
fn object_ids_mix_the_salt_with_the_chunk() {
    let specs = build_asset_specs(7, 2, ChunkKey::origin(), ChunkTheme::GrassPlane);
    assert_eq!(specs[0].id, WorldObjectId(11400714819323198485));
    assert_eq!(specs[1].id, WorldObjectId(11400714819323198484));
}

#[test]
fn generator_seed_words_are_the_world_seed_and_index() {
    let seed = chunk_rng_seed(7, key(2, -3));
    for word in 0..4usize {
        let bytes: [u8; 8] = seed[word * 8..word * 8 + 8].try_into().unwrap();
        assert_eq!(u64::from_le_bytes(bytes), 7 ^ word as u64);
    }
}

#[test]
fn active_keys_cover_the_square_row_by_row() {
    let keys = active_chunk_keys(key(1, -1), 1);
    let expected: Vec<ChunkKey> = vec![
        key(0, -2), key(1, -2), key(2, -2),
        key(0, -1), key(1, -1), key(2, -1),
        key(0, 0), key(1, 0), key(2, 0),
    ];
    assert_eq!(keys, expected);
    assert_eq!(ChunkView::around(key(1, -1), 1).keys(), expected);
    assert!(active_chunk_keys(key(0, 0), -1).is_empty());
}

#[test]
fn streaming_plan_loads_missing_and_drops_stale_chunks() {
    let stored = vec![key(5, 5), key(0, 0), key(1, 1), key(-3, 0)];
    let p = plan_stream(key(0, 0), 1, &stored);
    assert_eq!(p.drop, vec![key(5, 5), key(-3, 0)]);
    assert_eq!(p.load.len(), 7);
    assert!(!p.load.contains(&key(0, 0)));
    assert!(!p.load.contains(&key(1, 1)));
    assert_eq!(p.load[0], key(-1, -1));
}

#[test]
fn streaming_loads_a_three_by_three_window() {
    let p = plan_stream(key(0, 0), 1, &Vec::new());
    assert_eq!(p.load.len(), 9);
    assert!(p.drop.is_empty());
}

#[test]
fn objects_are_listed_by_id_with_equal_ids_in_their_order() {
    let spec = |id: u64, intensity: u8| AssetSpec { id: WorldObjectId(id), kind: ProcAssetKind::Rock, intensity, variant: 0 };
    let specs = vec![spec(30, 0), spec(10, 1), spec(30, 2), spec(20, 3), spec(10, 4)];
    assert_eq!(id_order(&specs), vec![1, 4, 3, 0, 2]);
    assert!(id_order(&Vec::new()).is_empty());
}

#[test]
fn removed_ids_stay_sorted_and_are_found() {
    let mut m = ChunkMutation::default();
    m.remove_object(WorldObjectId(9));
    m.remove_object(WorldObjectId(3));
    m.remove_object(WorldObjectId(9));
    m.remove_object(WorldObjectId(5));
    assert_eq!(m.removed_object_ids, vec![WorldObjectId(3), WorldObjectId(5), WorldObjectId(9)]);
    let sorted_with_repeat = ChunkMutation { removed_object_ids: vec![WorldObjectId(2), WorldObjectId(2), WorldObjectId(7)] };
    assert!(sorted_with_repeat.is_removed(WorldObjectId(2)));
    assert!(sorted_with_repeat.is_removed(WorldObjectId(7)));
    assert!(!sorted_with_repeat.is_removed(WorldObjectId(3)));
}
