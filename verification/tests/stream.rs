use monarch_engine::cell::WorldCell;
use monarch_engine::chunk::{ChunkKey, ChunkTheme, ChunkView, CHUNK_CELL_COUNT};
use monarch_engine::geom::{IVec2, IVec3};
use monarch_engine::grid::ActiveWorldGrid;
use monarch_engine::stream::{
    handle_chunk_loaded, handle_simulation_resize, manage_chunk_window, ChunkData, ChunkLoadedEvent,
    ChunkManager, ResizeSimulationEvent, WorldStore, CACHE_CHUNK_SIZE, PRELOAD_EXT_RADIUS, PRELOAD_TRIGGER,
};

fn key(x: i32, y: i32) -> ChunkKey {
    ChunkKey { key: IVec3 { x, y, z: 0 } }
}

fn chunk(elevation: u16) -> ChunkData {
    let mut c = WorldCell::default();
    c.set_elevation(elevation);
    ChunkData { cells: vec![c; CHUNK_CELL_COUNT], last_simulated: 0, theme: ChunkTheme(ChunkTheme::GRASS_PLAINS) }
}

fn is_active(store: &WorldStore, k: ChunkKey) -> bool {
    store.active_chunks.iter().any(|(a, _)| *a == k)
}

fn is_cached(store: &WorldStore, k: ChunkKey) -> bool {
    store.cached_chunks.contains(&k.cache_key())
}

fn fresh() -> (ChunkManager, ActiveWorldGrid, WorldStore) {
    (ChunkManager::default(), ActiveWorldGrid::default(), WorldStore::default())
}

#[test]
fn defaults_match_the_engine_constants() {
    let m = ChunkManager::default();
    assert_eq!(m.active_radius_x, 7);
    assert_eq!(m.active_radius_y, 7);
    assert_eq!(m.preload_ext_radius, PRELOAD_EXT_RADIUS);
    assert_eq!(m.preload_trigger, PRELOAD_TRIGGER);
    assert!(m.active_view.is_none() && m.preload_view.is_none());
    assert_eq!(CACHE_CHUNK_SIZE, 14 * 14 * 6);
    let s = WorldStore::default();
    assert_eq!(s.cached_chunks.cap().get(), CACHE_CHUNK_SIZE);
}

#[test]
fn the_first_step_asks_for_the_whole_preload_area() {
    let (mut m, mut g, mut s) = fresh();
    let traffic = manage_chunk_window(key(0, 0), 0, &mut m, &mut g, &mut s);
    assert!(traffic.unloads.is_empty());
    // the active window is 15 x 15 chunks, the preload area 21 x 21
    assert_eq!(traffic.requests.len(), 21 * 21);
    assert_eq!(s.pending_requests.len(), 21 * 21);
    let first: Vec<ChunkKey> = traffic.requests.iter().take(225).map(|r| r.key).collect();
    assert!(first.iter().all(|k| k.key.x.abs() <= 7 && k.key.y.abs() <= 7));
    assert_eq!(m.active_view, Some(ChunkView::from_rect_xy(key(0, 0), 7, 7)));
    assert_eq!(m.preload_view, Some(ChunkView::from_rect_xy(key(0, 0), 10, 10)));
    assert_eq!(g.window_origin, IVec2::new(-448, -448));
}

#[test]
fn a_loaded_chunk_inside_the_window_becomes_active_and_reaches_the_grid() {
    let (mut m, mut g, mut s) = fresh();
    manage_chunk_window(key(0, 0), 0, &mut m, &mut g, &mut s);
    let unloads = handle_chunk_loaded(ChunkLoadedEvent { key: key(1, 2), data: chunk(42) }, 5_000_000, &m, &mut g, &mut s);
    assert!(unloads.is_empty());
    assert!(is_active(&s, key(1, 2)));
    assert!(!s.pending_requests.contains(&key(1, 2)));
    assert_eq!(g.get_cell(IVec2::new(64, 128)).elevation(), 42);
    assert_eq!(g.get_cell(IVec2::new(127, 191)).elevation(), 42);
    let data = &s.active_chunks.iter().find(|(k, _)| *k == key(1, 2)).unwrap().1;
    assert_eq!(data.last_simulated, 5_000_000);
}

#[test]
fn a_loaded_chunk_outside_the_window_goes_to_the_cache() {
    let (mut m, mut g, mut s) = fresh();
    manage_chunk_window(key(0, 0), 0, &mut m, &mut g, &mut s);
    let unloads = handle_chunk_loaded(ChunkLoadedEvent { key: key(9, 0), data: chunk(3) }, 7, &m, &mut g, &mut s);
    assert!(unloads.is_empty());
    assert!(!is_active(&s, key(9, 0)));
    assert!(is_cached(&s, key(9, 0)));
    assert!(!s.pending_requests.contains(&key(9, 0)));
}

#[test]
fn moving_the_window_demotes_and_promotes_through_the_cache() {
    let (mut m, mut g, mut s) = fresh();
    manage_chunk_window(key(0, 0), 0, &mut m, &mut g, &mut s);
    handle_chunk_loaded(ChunkLoadedEvent { key: key(-7, 0), data: chunk(11) }, 0, &m, &mut g, &mut s);
    handle_chunk_loaded(ChunkLoadedEvent { key: key(8, 0), data: chunk(22) }, 0, &m, &mut g, &mut s);
    assert!(is_active(&s, key(-7, 0)));
    assert!(is_cached(&s, key(8, 0)));

    let traffic = manage_chunk_window(key(1, 0), 9, &mut m, &mut g, &mut s);
    assert!(traffic.unloads.is_empty());
    assert!(traffic.requests.is_empty());
    assert!(!is_active(&s, key(-7, 0)));
    assert!(is_cached(&s, key(-7, 0)));
    assert!(is_active(&s, key(8, 0)));
    assert_eq!(g.window_origin, IVec2::new(-384, -448));
    assert_eq!(g.get_cell(IVec2::new(8 * 64, 0)).elevation(), 22);

    let back = manage_chunk_window(key(0, 0), 10, &mut m, &mut g, &mut s);
    assert!(back.unloads.is_empty());
    assert!(is_active(&s, key(-7, 0)));
    assert_eq!(g.get_cell(IVec2::new(-7 * 64, 5)).elevation(), 11);
    let data = &s.active_chunks.iter().find(|(k, _)| *k == key(-7, 0)).unwrap().1;
    assert_eq!(data.last_simulated, 9);
}

#[test]
fn staying_put_changes_nothing() {
    let (mut m, mut g, mut s) = fresh();
    manage_chunk_window(key(0, 0), 0, &mut m, &mut g, &mut s);
    let pending = s.pending_requests.clone();
    let traffic = manage_chunk_window(key(0, 0), 1, &mut m, &mut g, &mut s);
    assert!(traffic.unloads.is_empty() && traffic.requests.is_empty());
    assert_eq!(s.pending_requests, pending);
}

#[test]
fn walking_far_enough_triggers_a_new_preload() {
    let (mut m, mut g, mut s) = fresh();
    manage_chunk_window(key(0, 0), 0, &mut m, &mut g, &mut s);
    let traffic = manage_chunk_window(key(2, 0), 1, &mut m, &mut g, &mut s);
    // the danger area reaches x = 11, past the preloaded x = 10: columns 11 and 12 are asked for
    assert_eq!(traffic.requests.len(), 2 * 21);
    assert!(traffic.requests.iter().all(|r| r.key.key.x == 11 || r.key.key.x == 12));
    assert_eq!(m.preload_view, Some(ChunkView::from_rect_xy(key(2, 0), 10, 10)));
}

#[test]
fn a_full_cache_hands_out_its_oldest_chunk() {
    let (mut m, mut g, mut s) = fresh();
    s.cached_chunks = {
        let mut small = WorldStore::default();
        small.cached_chunks.resize(std::num::NonZeroUsize::new(1).unwrap());
        small.cached_chunks
    };
    manage_chunk_window(key(0, 0), 0, &mut m, &mut g, &mut s);
    handle_chunk_loaded(ChunkLoadedEvent { key: key(20, 0), data: chunk(1) }, 0, &m, &mut g, &mut s);
    let unloads = handle_chunk_loaded(ChunkLoadedEvent { key: key(21, 0), data: chunk(2) }, 0, &m, &mut g, &mut s);
    assert_eq!(unloads.len(), 1);
    assert_eq!(unloads[0].key, key(20, 0));
    assert_eq!(unloads[0].data.cells[0].elevation(), 1);
    assert!(is_cached(&s, key(21, 0)));
}

#[test]
fn resizing_rebuilds_the_grid_and_keeps_active_chunks() {
    let (mut m, mut g, mut s) = fresh();
    manage_chunk_window(key(0, 0), 0, &mut m, &mut g, &mut s);
    handle_chunk_loaded(ChunkLoadedEvent { key: key(0, 0), data: chunk(5) }, 0, &m, &mut g, &mut s);
    handle_chunk_loaded(ChunkLoadedEvent { key: key(3, 0), data: chunk(6) }, 0, &m, &mut g, &mut s);
    let ev = ResizeSimulationEvent { new_active_radius_x: 2, new_active_radius_y: 1 };
    let traffic = handle_simulation_resize(key(0, 0), 50, &ev, &mut m, &mut g, &mut s);
    assert!(traffic.unloads.is_empty());
    assert!(traffic.requests.is_empty());
    assert_eq!(g.width, 5 * 64);
    assert_eq!(g.height, 3 * 64);
    assert_eq!(g.window_origin, IVec2::new(-128, -64));
    assert!(is_active(&s, key(0, 0)));
    assert!(!is_active(&s, key(3, 0)));
    assert!(is_cached(&s, key(3, 0)));
    assert_eq!(g.get_cell(IVec2::new(10, 10)).elevation(), 5);
    assert_eq!(m.active_radius_x, 2);
    assert_eq!(m.active_radius_y, 1);
    assert!(m.preload_view.is_none());
    assert_eq!(m.active_view, Some(ChunkView::from_rect_xy(key(0, 0), 2, 1)));
}

#[test]
fn flat_and_cubic_views_span_their_radii() {
    let c = ChunkKey { key: IVec3 { x: 2, y: -1, z: 5 } };
    let flat = ChunkView::new_flat(c, 3, 1);
    assert_eq!(flat.min.key, IVec3 { x: -1, y: -2, z: 2 });
    assert_eq!(flat.max.key, IVec3 { x: 5, y: 0, z: 8 });
    assert!(flat.contains(&ChunkKey { key: IVec3 { x: 5, y: 0, z: 2 } }));
    assert!(!flat.contains(&ChunkKey { key: IVec3 { x: 5, y: 1, z: 2 } }));
    let cube = ChunkView::new_cubic(c, 2);
    assert_eq!(cube.min.key, IVec3 { x: 0, y: -3, z: 3 });
    assert_eq!(cube.max.key, IVec3 { x: 4, y: 1, z: 7 });
    assert_eq!(cube.keys().len(), 125);
}

#[test]
fn edits_made_in_the_grid_travel_with_a_demoted_chunk() {
    let (mut m, mut g, mut s) = fresh();
    manage_chunk_window(key(0, 0), 0, &mut m, &mut g, &mut s);
    handle_chunk_loaded(ChunkLoadedEvent { key: key(-7, 3), data: chunk(5) }, 0, &m, &mut g, &mut s);
    let mut edited = g.get_cell(IVec2::new(-7 * 64 + 10, 3 * 64 + 20));
    edited.set_elevation(99);
    g.set_cell(IVec2::new(-7 * 64 + 10, 3 * 64 + 20), edited);

    manage_chunk_window(key(1, 0), 42, &mut m, &mut g, &mut s);
    assert!(!is_active(&s, key(-7, 3)));
    let cached = s.cached_chunks.peek(&key(-7, 3).cache_key()).unwrap();
    assert_eq!(cached.last_simulated, 42);
    assert_eq!(cached.cells[20 * 64 + 10].elevation(), 99);
    assert_eq!(cached.cells[0].elevation(), 5);

    manage_chunk_window(key(0, 0), 50, &mut m, &mut g, &mut s);
    assert_eq!(g.get_cell(IVec2::new(-7 * 64 + 10, 3 * 64 + 20)).elevation(), 99);
}

#[test]
fn after_a_shift_promoted_chunks_show_their_copy_and_staying_chunks_keep_their_cells() {
    let (mut m, mut g, mut s) = fresh();
    manage_chunk_window(key(0, 0), 0, &mut m, &mut g, &mut s);
    handle_chunk_loaded(ChunkLoadedEvent { key: key(2, 1), data: chunk(7) }, 0, &m, &mut g, &mut s);
    handle_chunk_loaded(ChunkLoadedEvent { key: key(8, -2), data: chunk(9) }, 0, &m, &mut g, &mut s);
    let spot = IVec2::new(2 * 64 + 3, 64 + 60);
    let mut edited = g.get_cell(spot);
    edited.set_elevation(123);
    g.set_cell(spot, edited);
    let mut before = vec![WorldCell::default(); CHUNK_CELL_COUNT];
    g.extract_chunk_into(key(2, 1), &mut before);

    manage_chunk_window(key(1, 0), 5, &mut m, &mut g, &mut s);
    assert!(is_active(&s, key(8, -2)));
    let mut shown = vec![WorldCell::default(); CHUNK_CELL_COUNT];
    g.extract_chunk_into(key(8, -2), &mut shown);
    let copy = &s.active_chunks.iter().find(|(k, _)| *k == key(8, -2)).unwrap().1;
    assert!(shown == copy.cells);
    assert!(shown.iter().all(|c| c.elevation() == 9));

    let mut after = vec![WorldCell::default(); CHUNK_CELL_COUNT];
    g.extract_chunk_into(key(2, 1), &mut after);
    assert!(after == before);
    assert_eq!(after[60 * 64 + 3].elevation(), 123);
}

#[test]
fn after_a_resize_every_active_chunk_reads_back_as_its_copy() {
    let (mut m, mut g, mut s) = fresh();
    manage_chunk_window(key(0, 0), 0, &mut m, &mut g, &mut s);
    handle_chunk_loaded(ChunkLoadedEvent { key: key(1, -1), data: chunk(3) }, 0, &m, &mut g, &mut s);
    handle_chunk_loaded(ChunkLoadedEvent { key: key(-2, 0), data: chunk(4) }, 0, &m, &mut g, &mut s);
    let ev = ResizeSimulationEvent { new_active_radius_x: 2, new_active_radius_y: 2 };
    handle_simulation_resize(key(0, 0), 8, &ev, &mut m, &mut g, &mut s);
    assert_eq!(s.active_chunks.len(), 2);
    for (k, data) in s.active_chunks.iter() {
        let mut shown = vec![WorldCell::default(); CHUNK_CELL_COUNT];
        g.extract_chunk_into(*k, &mut shown);
        assert!(shown == data.cells);
    }
}

#[test]
fn streaming_reaches_the_edge_of_the_cell_coordinate_range() {
    let (mut m, mut g, mut s) = fresh();
    let edge = 33554431;
    // the preload area reaches ten chunks beyond the centre, the danger area twelve
    let center = key(edge - 12, 0);
    let traffic = manage_chunk_window(center, 0, &mut m, &mut g, &mut s);
    assert!(traffic.requests.iter().any(|r| r.key == key(edge - 2, 0)));
    assert!(traffic.requests.iter().all(|r| r.key.key.x <= edge - 2));
    handle_chunk_loaded(ChunkLoadedEvent { key: key(edge - 5, 0), data: chunk(13) }, 0, &m, &mut g, &mut s);
    assert!(is_active(&s, key(edge - 5, 0)));
    assert_eq!(g.get_cell(IVec2::new((edge - 5) * 64 + 63, 63)).elevation(), 13);
}
