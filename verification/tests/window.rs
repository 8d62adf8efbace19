use monarch_engine::geom::{IVec2, UVec2};
use monarch_engine::pixel::{MaterialId, Pixel, PixelFlags};
use monarch_engine::window::{ActiveGridConfig, ChunkWindowDelta, ToroidalGrid, WorldState, CHUNK_PIXELS};

fn config(lx: u32, ly: u32, vx: u32, vy: u32) -> ActiveGridConfig {
    ActiveGridConfig { loaded_chunks: UVec2::new(lx, ly), visible_chunks: UVec2::new(vx, vy) }
}

#[test]
fn sanitizing_shows_at_least_one_chunk_and_loads_what_is_shown() {
    let c = config(2, 0, 5, 0).sanitized();
    assert_eq!(c.visible_chunks, UVec2::new(5, 1));
    assert_eq!(c.loaded_chunks, UVec2::new(5, 1));
    let d = ActiveGridConfig::default();
    assert_eq!(d.loaded_chunks, UVec2::new(10, 10));
    assert_eq!(d.visible_chunks, UVec2::new(8, 8));
    assert_eq!(d.loaded_pixel_dimensions(), UVec2::new(640, 640));
    assert_eq!(d.half_visible_pixels(), IVec2::new(256, 256));
    assert_eq!(d.half_loaded_chunks(), IVec2::new(5, 5));
}

#[test]
fn a_new_window_is_centred_on_the_player_chunk() {
    let g = ToroidalGrid::new(config(4, 4, 2, 2), IVec2::new(-1, 130));
    assert_eq!(g.world_to_chunk(IVec2::new(-1, 130)), IVec2::new(-1, 2));
    assert_eq!(g.active_world_pixel_min(), IVec2::new(-3 * 64, 0));
    assert!(g.contains_world_chunk(IVec2::new(-3, 0)));
    assert!(g.contains_world_chunk(IVec2::new(0, 3)));
    assert!(!g.contains_world_chunk(IVec2::new(1, 3)));
    assert_eq!(g.window_chunks().len(), 16);
    assert_eq!(g.window_chunks()[0], IVec2::new(-3, 0));
}

#[test]
fn pixels_wrap_around_the_buffer() {
    let mut g = ToroidalGrid::new(config(2, 2, 1, 1), IVec2::new(0, 0));
    let p = Pixel { material: MaterialId(MaterialId::ROCK), state: 1, variant: 2, flags: PixelFlags(PixelFlags::IS_SOLID) };
    g.set_world_pixel(IVec2::new(-1, -1), p);
    assert_eq!(g.get_world_pixel(IVec2::new(-1, -1)), p);
    // 128 pixels further along both axes is the same slot
    assert_eq!(g.get_world_pixel(IVec2::new(127, 127)), p);
    assert_eq!(g.get_world_pixel(IVec2::new(0, 0)), Pixel::default());
}

#[test]
fn recentering_reports_the_chunks_that_left_and_entered() {
    let mut g = ToroidalGrid::new(config(3, 3, 1, 1), IVec2::new(0, 0));
    assert_eq!(g.active_world_pixel_min(), IVec2::new(-64, -64));
    let delta = g.recenter_around(IVec2::new(64, 10));
    assert_eq!(delta.exited_chunks, vec![IVec2::new(-1, -1), IVec2::new(-1, 0), IVec2::new(-1, 1)]);
    assert_eq!(delta.entered_chunks, vec![IVec2::new(2, -1), IVec2::new(2, 0), IVec2::new(2, 1)]);
    let none = g.recenter_around(IVec2::new(100, 20));
    assert!(none.is_empty());
}

#[test]
fn jumping_far_replaces_the_whole_window() {
    let mut g = ToroidalGrid::new(config(2, 2, 1, 1), IVec2::new(0, 0));
    let delta = g.recenter_around(IVec2::new(6400, 6400));
    assert_eq!(delta.exited_chunks.len(), 4);
    assert_eq!(delta.entered_chunks.len(), 4);
    assert_eq!(delta.entered_chunks[0], IVec2::new(99, 99));
}

#[test]
fn the_visible_copy_is_read_row_by_row() {
    let mut g = ToroidalGrid::new(config(2, 2, 1, 1), IVec2::new(32, 32));
    let p = Pixel { material: MaterialId(MaterialId::WATER), state: 0, variant: 0, flags: PixelFlags(0) };
    // the shown area starts at (0, 0): the player is 32 pixels in
    g.set_world_pixel(IVec2::new(3, 1), p);
    let shown = g.copy_visible_window_pixels(IVec2::new(32, 32));
    assert_eq!(shown.len(), 64 * 64);
    assert_eq!(shown[64 + 3], p);
    assert_eq!(shown[3], Pixel::default());
}

#[test]
fn window_deltas_append_in_order() {
    let mut a = ChunkWindowDelta::full_window(vec![IVec2::new(0, 0)]);
    let b = ChunkWindowDelta { entered_chunks: vec![IVec2::new(1, 0)], exited_chunks: vec![IVec2::new(2, 2)] };
    a.append(b);
    assert_eq!(a.entered_chunks, vec![IVec2::new(0, 0), IVec2::new(1, 0)]);
    assert_eq!(a.exited_chunks, vec![IVec2::new(2, 2)]);
    assert!(!a.is_empty());
    assert!(ChunkWindowDelta::default().is_empty());
}

#[test]
fn world_state_collects_window_moves_until_taken() {
    let mut s = WorldState::default();
    let first = s.take_chunk_window_delta();
    assert_eq!(first.entered_chunks.len(), 100);
    assert!(s.take_chunk_window_delta().is_empty());
    s.move_player_by(IVec2::new(0, 0));
    assert!(s.take_chunk_window_delta().is_empty());
    s.move_player_by(IVec2::new(64, 0));
    s.move_player_by(IVec2::new(64, 0));
    let moved = s.take_chunk_window_delta();
    assert_eq!(moved.entered_chunks.len(), 20);
    assert_eq!(moved.exited_chunks.len(), 20);
    assert_eq!(s.player_world_pixel, IVec2::new(128, 0));
    assert_eq!(s.player_view_pixel(), IVec2::new(256, 256));
}

fn patterned_chunk(seed: u8) -> Vec<Pixel> {
    (0..CHUNK_PIXELS)
        .map(|i| Pixel {
            material: MaterialId(MaterialId::DIRT),
            state: (i % 251) as u8,
            variant: seed,
            flags: PixelFlags(PixelFlags::NONE),
        })
        .collect()
}

#[test]
fn a_chunk_written_into_the_window_reads_back_unchanged() {
    let mut g = ToroidalGrid::new(config(3, 2, 1, 1), IVec2::new(10, 10));
    let chunk = IVec2::new(1, 0);
    assert!(g.contains_world_chunk(chunk));
    let neighbour_before = g.read_chunk(IVec2::new(0, 0));
    let px = patterned_chunk(7);
    g.write_chunk(chunk, &px);
    assert_eq!(g.read_chunk(chunk), px);
    assert_eq!(g.get_world_pixel(IVec2::new(64 + 5, 2)).state, (2 * 64 + 5) as u8);
    assert_eq!(g.read_chunk(IVec2::new(0, 0)), neighbour_before);
}

#[test]
fn a_chunk_outside_the_window_is_not_written() {
    let mut g = ToroidalGrid::new(config(2, 2, 1, 1), IVec2::new(0, 0));
    let far = IVec2::new(5, 5);
    assert!(!g.contains_world_chunk(far));
    let before = g.copy_visible_window_pixels(IVec2::new(0, 0));
    g.write_chunk(far, &patterned_chunk(1));
    assert_eq!(g.copy_visible_window_pixels(IVec2::new(0, 0)), before);
    assert!(g.read_chunk(IVec2::new(0, 0)).iter().all(|p| *p == Pixel::default()));
}

#[test]
fn the_world_state_applies_and_extracts_chunks() {
    let mut w = WorldState::default();
    let px = patterned_chunk(3);
    w.apply_chunk(IVec2::new(-1, 2), px.clone());
    assert_eq!(w.extract_chunk(IVec2::new(-1, 2)), Some(px));
}

#[test]
fn the_window_follows_a_player_at_the_ends_of_the_pixel_range() {
    let mut g = ToroidalGrid::new(config(4, 4, 2, 2), IVec2::new(i32::MAX, i32::MIN));
    assert_eq!(g.world_to_chunk(IVec2::new(i32::MAX, i32::MIN)), IVec2::new(33554431, -33554432));
    assert!(g.contains_world_chunk(IVec2::new(33554431, -33554432)));
    let delta = g.recenter_around(IVec2::new(i32::MIN, i32::MAX));
    assert_eq!(delta.entered_chunks.len(), 16);
    assert_eq!(delta.exited_chunks.len(), 16);
    assert!(g.contains_world_chunk(IVec2::new(-33554432, 33554431)));
}
