use monarch_engine::cell::{GranularMat, SurfaceMat, TerrainMat, WorldCell};
use monarch_engine::geom::IVec2;
use monarch_engine::grid::ActiveWorldGrid;

fn grid_with(pos: IVec2, cell: WorldCell) -> ActiveWorldGrid {
    let mut g = ActiveWorldGrid::new(16, 16, IVec2::new(0, 0));
    g.set_cell(pos, cell);
    for w in g.next_wake_buffer.iter_mut() {
        *w = 0;
    }
    g.cells_dirty = false;
    g
}

fn column(elevation: u16, granular: u16) -> WorldCell {
    let mut c = WorldCell::default();
    c.set_terrain_mat(TerrainMat(TerrainMat::TERRAIN_SANDSTONE));
    c.set_elevation(elevation);
    if granular > 0 {
        c.set_granular_mat(GranularMat(GranularMat::GRANULAR_SAND));
        c.set_granular_vol(granular);
    }
    c
}

#[test]
fn bounds_follow_the_window() {
    let g = ActiveWorldGrid::new(16, 8, IVec2::new(-4, 10));
    assert!(g.is_in_bounds(IVec2::new(-4, 10)));
    assert!(g.is_in_bounds(IVec2::new(11, 17)));
    assert!(!g.is_in_bounds(IVec2::new(12, 17)));
    assert!(!g.is_in_bounds(IVec2::new(-5, 10)));
    assert!(!g.is_in_bounds(IVec2::new(0, 18)));
    assert_eq!(g.bedrock_level(IVec2::new(0, 50)), None);
    assert_eq!(g.floor_level(IVec2::new(0, 50)), None);
}

#[test]
fn levels_read_bedrock_and_loose_matter() {
    let p = IVec2::new(3, 4);
    let g = grid_with(p, column(40, 7));
    assert_eq!(g.bedrock_level(p), Some(40));
    assert_eq!(g.floor_level(p), Some(47));
}

#[test]
fn crushing_stops_at_the_bottom_and_at_what_can_be_paid() {
    let p = IVec2::new(5, 5);
    let mut g = grid_with(p, column(40, 0));
    assert_eq!(g.crush_bedrock(p, 30, 100), 10);
    assert_eq!(g.get_cell(p).elevation(), 30);
    assert!(g.cells_dirty);
    assert_eq!(g.next_wake_buffer[g.get_index(p)], 2);
    assert_eq!(g.next_wake_buffer[g.get_index(IVec2::new(6, 6))], 2);
    assert_eq!(g.crush_bedrock(p, 0, 4), 4);
    assert_eq!(g.get_cell(p).elevation(), 26);
    assert_eq!(g.crush_bedrock(p, -100, 1000), 26);
    assert_eq!(g.get_cell(p).elevation(), 0);
    assert_eq!(g.crush_bedrock(p, -100, 1000), 0);
}

#[test]
fn crushing_above_the_surface_changes_nothing() {
    let p = IVec2::new(5, 5);
    let mut g = grid_with(p, column(40, 0));
    assert_eq!(g.crush_bedrock(p, 40, 100), 0);
    assert_eq!(g.crush_bedrock(p, 20, 0), 0);
    assert_eq!(g.crush_bedrock(IVec2::new(99, 0), 0, 100), 0);
    assert_eq!(g.get_cell(p).elevation(), 40);
    assert!(!g.cells_dirty);
    assert!(g.next_wake_buffer.iter().all(|w| *w == 0));
}

#[test]
fn excavation_digs_down_to_the_bottom_and_empties_the_column() {
    let p = IVec2::new(2, 2);
    let mut g = grid_with(p, column(10, 8));
    assert_eq!(g.excavate_granular(p, 15), (3, Some(GranularMat(GranularMat::GRANULAR_SAND))));
    assert_eq!(g.get_cell(p).granular_vol(), 5);
    assert_eq!(g.get_cell(p).granular_mat(), GranularMat(GranularMat::GRANULAR_SAND));
    assert_eq!(g.excavate_granular(p, 15), (0, None));
    assert_eq!(g.excavate_granular(p, 4), (5, Some(GranularMat(GranularMat::GRANULAR_SAND))));
    assert_eq!(g.get_cell(p).granular_vol(), 0);
    assert_eq!(g.get_cell(p).granular_mat(), GranularMat(GranularMat::EMPTY));
    assert_eq!(g.get_cell(p).elevation(), 10);
    assert_eq!(g.excavate_granular(p, 0), (0, None));
}

#[test]
fn deposits_are_capped_by_room_rim_and_ceiling() {
    let p = IVec2::new(7, 1);
    let mut g = grid_with(p, column(10, 0));
    let sand = GranularMat(GranularMat::GRANULAR_SAND);
    assert_eq!(g.deposit_granular(p, sand, 5, 100, 3), 3);
    assert_eq!(g.get_cell(p).granular_vol(), 3);
    assert_eq!(g.get_cell(p).granular_mat(), sand);
    assert_eq!(g.deposit_granular(p, sand, 5, 15, 3), 2);
    assert_eq!(g.get_cell(p).granular_vol(), 5);
    assert_eq!(g.deposit_granular(p, sand, 5, 15, 3), 0);
    assert_eq!(g.deposit_granular(p, GranularMat(GranularMat::GRANULAR_DIRT), 5, 100, 3), 0);
    assert_eq!(g.deposit_granular(p, sand, 0, 100, 3), 0);
    assert_eq!(g.get_cell(p).granular_vol(), 5);
}

#[test]
fn deposits_never_overfill_a_column() {
    let p = IVec2::new(1, 1);
    let mut g = grid_with(p, column(0, 509));
    let sand = GranularMat(GranularMat::GRANULAR_SAND);
    assert_eq!(g.deposit_granular(p, sand, 9, 10_000, 9), 2);
    assert_eq!(g.get_cell(p).granular_vol(), WorldCell::MAX_GRANULAR_VOL);
    assert_eq!(g.deposit_granular(p, sand, 9, 10_000, 9), 0);
}

#[test]
fn foliage_is_cleared_only_when_reached() {
    let p = IVec2::new(4, 4);
    let mut c = column(10, 2);
    c.set_surface_mat(SurfaceMat(SurfaceMat::SURFACE_FOLIAGE));
    c.set_surface_state(3);
    let mut g = grid_with(p, c);
    g.clear_surface_organics(p, 15);
    assert_eq!(g.get_cell(p).surface_mat(), SurfaceMat(SurfaceMat::SURFACE_FOLIAGE));
    g.clear_surface_organics(p, 14);
    assert_eq!(g.get_cell(p).surface_mat(), SurfaceMat(SurfaceMat::EMPTY));
    assert_eq!(g.get_cell(p).surface_state(), 0);
    assert_eq!(g.next_wake_buffer[g.get_index(p)], 2);
}

#[test]
fn fresh_foliage_still_stands_one_level_tall() {
    let p = IVec2::new(4, 4);
    let mut c = column(10, 0);
    c.set_surface_mat(SurfaceMat(SurfaceMat::SURFACE_FOLIAGE));
    let mut g = grid_with(p, c);
    g.clear_surface_organics(p, 11);
    assert_eq!(g.get_cell(p).surface_mat(), SurfaceMat(SurfaceMat::SURFACE_FOLIAGE));
    g.clear_surface_organics(p, 10);
    assert_eq!(g.get_cell(p).surface_mat(), SurfaceMat(SurfaceMat::EMPTY));
}

#[test]
fn rim_capacity_matches_what_a_deposit_piles() {
    let p = IVec2::new(6, 6);
    let mut g = grid_with(p, column(10, 4));
    let sand = GranularMat(GranularMat::GRANULAR_SAND);
    assert_eq!(g.deposit_capacity(p, sand, 100, 3), 3);
    assert_eq!(g.deposit_capacity(p, sand, 16, 3), 2);
    assert_eq!(g.deposit_capacity(p, sand, 14, 3), 0);
    assert_eq!(g.deposit_capacity(p, GranularMat(GranularMat::GRANULAR_DIRT), 100, 3), 0);
    assert_eq!(g.deposit_capacity(IVec2::new(40, 0), sand, 100, 3), 0);
    assert_eq!(g.deposit_granular(p, sand, u16::MAX, 16, 3), 2);
}

#[test]
fn digging_out_and_refilling_restores_the_column() {
    let p = IVec2::new(9, 9);
    let mut g = grid_with(p, column(20, 12));
    let (dug, mat) = g.excavate_granular(p, 25);
    assert_eq!(dug, 7);
    let mat = mat.unwrap();
    assert_eq!(g.deposit_granular(p, mat, dug as u16, 32, 7), 7);
    assert_eq!(g.get_cell(p).granular_vol(), 12);
    assert_eq!(g.get_cell(p).granular_mat(), mat);
}

#[test]
fn crushing_never_goes_below_the_bottom() {
    let p = IVec2::new(3, 3);
    let mut g = grid_with(p, column(100, 0));
    assert_eq!(g.crush_bedrock(p, 95, u16::MAX), 5);
    assert_eq!(g.get_cell(p).elevation(), 95);
    assert_eq!(g.crush_bedrock(p, 95, u16::MAX), 0);
}
