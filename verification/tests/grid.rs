use monarch_engine::cell::{FluidMat, WorldCell};
use monarch_engine::chunk::{ChunkKey, CHUNK_CELL_COUNT};
use monarch_engine::geom::{IVec2, IVec3};
use monarch_engine::grid::ActiveWorldGrid;

fn key(x: i32, y: i32) -> ChunkKey {
    ChunkKey { key: IVec3 { x, y, z: 0 } }
}

#[test]
fn default_grid_spans_fifteen_chunks_around_the_origin() {
    let g = ActiveWorldGrid::default();
    assert_eq!(g.width, 960);
    assert_eq!(g.height, 960);
    assert_eq!(g.window_origin, IVec2::new(-448, -448));
    assert_eq!(g.cells.len(), 960 * 960);
    assert!(g.next_wake_buffer.iter().all(|w| *w == 2));
    assert!(g.wake_buffer.iter().all(|w| *w == 0));
}

#[test]
fn cells_are_read_where_they_were_written() {
    let mut g = ActiveWorldGrid::new(64, 32, IVec2::new(-10, 5));
    let mut c = WorldCell::default();
    c.set_fluid_mat(FluidMat(FluidMat::FLUID_BLOOD));
    c.set_fluid_vol(33);
    g.set_cell(IVec2::new(-3, 20), c);
    assert_eq!(g.get_cell(IVec2::new(-3, 20)), c);
    assert_eq!(g.get_index(IVec2::new(-10, 5)), 0);
    assert_eq!(g.get_index(IVec2::new(-3, 20)), (15 * 64 + 7) as usize);
    assert!(g.cells_dirty);
}

#[test]
fn shifting_the_window_keeps_every_world_position_in_its_slot() {
    let mut g = ActiveWorldGrid::new(64, 64, IVec2::new(0, 0));
    let mut c = WorldCell::default();
    c.set_elevation(77);
    g.set_cell(IVec2::new(40, 50), c);
    let before = g.get_index(IVec2::new(40, 50));
    g.shift_window(IVec2::new(30, 40));
    assert_eq!(g.window_origin, IVec2::new(30, 40));
    assert_eq!(g.get_index(IVec2::new(40, 50)), before);
    assert_eq!(g.get_cell(IVec2::new(40, 50)).elevation(), 77);
    assert_eq!(g.buffer_head, IVec2::new(30, 40));
}

#[test]
fn a_loaded_chunk_is_extracted_unchanged() {
    let mut g = ActiveWorldGrid::new(128, 128, IVec2::new(-64, -64));
    let mut chunk = vec![WorldCell::default(); CHUNK_CELL_COUNT];
    for (i, c) in chunk.iter_mut().enumerate() {
        c.set_elevation((i % 4000) as u16);
        c.set_fluid_vol((i % 500) as u16);
    }
    g.load_chunk(key(-1, 0), &chunk);
    let mut out = vec![WorldCell::default(); CHUNK_CELL_COUNT];
    g.extract_chunk_into(key(-1, 0), &mut out);
    assert_eq!(out, chunk);
    // the chunk's first cell sits at world (-64, 0)
    assert_eq!(g.get_cell(IVec2::new(-64, 0)), chunk[0]);
    assert_eq!(g.get_cell(IVec2::new(-1, 63)), chunk[CHUNK_CELL_COUNT - 1]);
    assert!(g.next_wake_buffer.iter().all(|w| *w == 2));
}

#[test]
fn waking_a_cell_wakes_its_block_only() {
    let mut g = ActiveWorldGrid::new(64, 64, IVec2::new(0, 0));
    g.swap_buffers();
    assert!(g.next_wake_buffer.iter().all(|w| *w == 0));
    g.wake_cell(IVec2::new(10, 10));
    let awake = g.next_wake_buffer.iter().filter(|w| **w == 2).count();
    assert_eq!(awake, 9);
    assert_eq!(g.next_wake_buffer[g.get_index(IVec2::new(11, 9))], 2);
    assert_eq!(g.next_wake_buffer[g.get_index(IVec2::new(12, 10))], 0);
}

#[test]
fn waking_a_corner_cell_stays_inside_the_window() {
    let mut g = ActiveWorldGrid::new(64, 64, IVec2::new(0, 0));
    g.swap_buffers();
    g.wake_cell(IVec2::new(0, 0));
    let awake = g.next_wake_buffer.iter().filter(|w| **w == 2).count();
    assert_eq!(awake, 4);
}

#[test]
fn swapping_buffers_keeps_cells_and_advances_the_tick() {
    let mut g = ActiveWorldGrid::new(64, 64, IVec2::new(0, 0));
    let mut c = WorldCell::default();
    c.set_elevation(5);
    g.set_cell(IVec2::new(1, 1), c);
    g.swap_buffers();
    assert_eq!(g.tick, 1);
    assert_eq!(g.back_buffer, g.cells);
    assert!(g.wake_buffer.iter().all(|w| *w == 2));
}

#[test]
fn resizing_replaces_every_buffer() {
    let mut g = ActiveWorldGrid::new(64, 64, IVec2::new(0, 0));
    g.resize_in_place(192, 64, IVec2::new(-64, 128));
    assert_eq!(g.width, 192);
    assert_eq!(g.height, 64);
    assert_eq!(g.cells.len(), 192 * 64);
    assert_eq!(g.window_origin, IVec2::new(-64, 128));
    assert_eq!(g.buffer_head, IVec2::new(0, 0));
    assert!(g.next_wake_buffer.iter().all(|w| *w == 2));
}

#[test]
fn read_view_refuses_positions_outside_the_window() {
    let g = ActiveWorldGrid::new(64, 64, IVec2::new(0, 0));
    let view = g.back_buffer_view();
    assert!(view.get_cell(IVec2::new(-1, 0)).is_none());
    assert!(view.get_cell(IVec2::new(64, 3)).is_none());
    assert_eq!(view.get_index(IVec2::new(2, 1)), Some(66));
}

#[test]
fn rebuilding_the_buffers_keeps_the_cells_and_wakes_every_slot() {
    let mut g = ActiveWorldGrid::new(4, 3, IVec2::new(0, 0));
    let mut c = WorldCell::default();
    c.set_elevation(17);
    g.set_cell(IVec2::new(2, 1), c);
    g.swap_buffers();
    g.resize_buffers();
    assert_eq!(g.get_cell(IVec2::new(2, 1)).elevation(), 17);
    assert_eq!(g.back_buffer.len(), 12);
    assert!(g.back_buffer.iter().all(|c| c.0 == 0));
    assert!(g.wake_buffer.iter().all(|w| *w == 0));
    assert!(g.next_wake_buffer.iter().all(|w| *w == 2));
    assert!(g.cells_dirty);
}
