use monarch_engine::cell::{TerrainMat, WorldCell};
use monarch_engine::geom::IVec2;
use monarch_engine::grid::GridReadView;
use monarch_engine::materials::get_angle_of_repose;
use monarch_engine::sim::creep::step_granular;

const W: i32 = 32;

fn idx(x: i32, y: i32) -> usize {
    (y * W + x) as usize
}

fn flat() -> Vec<WorldCell> {
    vec![WorldCell::default(); (W * W) as usize]
}

fn creep_tick(old: &[WorldCell], tick: u32) -> Vec<WorldCell> {
    let v = GridReadView { cells: old, width: W, height: W, window_origin: IVec2::new(0, 0), buffer_head: IVec2::new(0, 0) };
    let mut next = old.to_vec();
    for y in 3..W - 3 {
        for x in 3..W - 3 {
            let i = idx(x, y);
            step_granular(&mut next[i], &old[i], v, IVec2::new(x, y), tick);
        }
    }
    next
}

fn total_elevation(cells: &[WorldCell]) -> u32 {
    cells.iter().map(|c| c.elevation() as u32).sum()
}

fn pillar(material: u8, height: u16) -> Vec<WorldCell> {
    let mut cells = flat();
    cells[idx(16, 16)].set_terrain_mat(TerrainMat(material));
    cells[idx(16, 16)].set_elevation(height);
    cells
}

#[test]
fn sandstone_and_ice_creep_other_terrain_stays() {
    assert_eq!(get_angle_of_repose(TerrainMat(TerrainMat::TERRAIN_SANDSTONE)), 2);
    assert_eq!(get_angle_of_repose(TerrainMat(TerrainMat::TERRAIN_ICE)), 3);
    assert_eq!(get_angle_of_repose(TerrainMat(TerrainMat::TERRAIN_DIRT)), u16::MAX);
}

#[test]
fn a_steep_pillar_hands_one_step_to_one_neighbour() {
    let cells = pillar(TerrainMat::TERRAIN_SANDSTONE, 10);
    let next = creep_tick(&cells, 0);
    assert_eq!(next[idx(16, 16)].elevation(), 9);
    let raised: Vec<usize> = (0..(W * W) as usize).filter(|i| *i != idx(16, 16) && next[*i].elevation() > 0).collect();
    assert_eq!(raised.len(), 1);
    let r = raised[0];
    assert_eq!(next[r].elevation(), 1);
    assert_eq!(next[r].terrain_mat(), TerrainMat(TerrainMat::TERRAIN_SANDSTONE));
    let (rx, ry) = ((r as i32) % W, (r as i32) / W);
    assert!((rx - 16).abs() <= 1 && (ry - 16).abs() <= 1);
}

#[test]
fn creep_conserves_elevation() {
    let mut cells = pillar(TerrainMat::TERRAIN_ICE, 30);
    let before = total_elevation(&cells);
    for tick in 0..8u32 {
        cells = creep_tick(&cells, tick);
        assert_eq!(total_elevation(&cells), before);
    }
    assert!(cells[idx(16, 16)].elevation() < 30);
}

#[test]
fn slopes_within_the_angle_of_repose_hold() {
    let cells = pillar(TerrainMat::TERRAIN_SANDSTONE, 2);
    assert_eq!(creep_tick(&cells, 0), cells);
    let dirt = pillar(TerrainMat::TERRAIN_DIRT, 50);
    assert_eq!(creep_tick(&dirt, 0), dirt);
}
