use monarch_engine::cell::{FluidMat, GranularMat, SurfaceMat, WorldCell};
use monarch_engine::geom::IVec2;
use monarch_engine::grid::{ActiveWorldGrid, GridReadView};
use monarch_engine::sim::fire::apply_fire;
use monarch_engine::sim::granular::step_granular;
use monarch_engine::sim::liquid::step_liquid;
use monarch_engine::sim::world::{simulate_world, SimulationConfig};
use rand::SeedableRng;

const W: i32 = 32;

fn flat_grid(elevation: u16) -> Vec<WorldCell> {
    let mut c = WorldCell::default();
    c.set_elevation(elevation);
    vec![c; (W * W) as usize]
}

fn idx(x: i32, y: i32) -> usize {
    (y * W + x) as usize
}

fn view(cells: &[WorldCell]) -> GridReadView<'_> {
    GridReadView { cells, width: W, height: W, window_origin: IVec2::new(0, 0), buffer_head: IVec2::new(0, 0) }
}

fn total_fluid(cells: &[WorldCell]) -> u32 {
    cells.iter().map(|c| c.fluid_vol() as u32).sum()
}

fn total_granular(cells: &[WorldCell]) -> u32 {
    cells.iter().map(|c| c.granular_vol() as u32).sum()
}

fn liquid_tick(old: &[WorldCell], tick: u32) -> Vec<WorldCell> {
    let v = view(old);
    let mut next = old.to_vec();
    for y in 0..W {
        for x in 0..W {
            let i = idx(x, y);
            step_liquid(&mut next[i], &old[i], v, IVec2::new(x, y), tick);
        }
    }
    next
}

fn granular_tick(old: &[WorldCell], tick: u32) -> Vec<WorldCell> {
    let v = view(old);
    let mut next = old.to_vec();
    for y in 0..W {
        for x in 0..W {
            let i = idx(x, y);
            step_granular(&mut next[i], &old[i], v, IVec2::new(x, y), tick);
        }
    }
    next
}

#[test]
fn liquid_steps_conserve_water() {
    let mut cells = flat_grid(10);
    cells[idx(16, 16)].set_fluid_mat(FluidMat(FluidMat::FLUID_WATER));
    cells[idx(16, 16)].set_fluid_vol(100);
    cells[idx(10, 12)].set_fluid_mat(FluidMat(FluidMat::FLUID_WATER));
    cells[idx(10, 12)].set_fluid_vol(37);
    let before = total_fluid(&cells);
    for tick in 0..6u32 {
        cells = liquid_tick(&cells, tick * 2);
        assert_eq!(total_fluid(&cells), before);
    }
    assert!(cells[idx(16, 16)].fluid_vol() < 100);
}

#[test]
fn water_spreads_to_a_lower_neighbour() {
    let mut cells = flat_grid(10);
    cells[idx(5, 5)].set_fluid_mat(FluidMat(FluidMat::FLUID_WATER));
    cells[idx(5, 5)].set_fluid_vol(40);
    let next = liquid_tick(&cells, 0);
    let wet: Vec<usize> = (0..(W * W) as usize).filter(|i| next[*i].fluid_vol() > 0).collect();
    assert_eq!(wet.len(), 2);
    assert_eq!(next[idx(5, 5)].fluid_vol(), 20);
    let other = wet.into_iter().find(|i| *i != idx(5, 5)).unwrap();
    assert_eq!(next[other].fluid_vol(), 20);
    assert_eq!(next[other].fluid_mat().0, FluidMat::FLUID_WATER);
}

#[test]
fn dry_flat_ground_stays_still() {
    let cells = flat_grid(10);
    let next = liquid_tick(&cells, 0);
    assert_eq!(next, cells);
    let next = granular_tick(&cells, 1);
    assert_eq!(next, cells);
}

#[test]
fn granular_steps_conserve_sand() {
    let mut cells = flat_grid(0);
    cells[idx(16, 16)].set_granular_mat(GranularMat(GranularMat::GRANULAR_SAND));
    cells[idx(16, 16)].set_granular_vol(60);
    let before = total_granular(&cells);
    for tick in 0..6u32 {
        cells = granular_tick(&cells, tick * 2 + 1);
        assert_eq!(total_granular(&cells), before);
    }
    assert!(cells[idx(16, 16)].granular_vol() < 60);
}

#[test]
fn foliage_next_to_fire_catches_on_a_lucky_roll() {
    let mut cells = flat_grid(0);
    cells[idx(8, 8)].set_surface_mat(SurfaceMat(SurfaceMat::SURFACE_FIRE));
    cells[idx(9, 8)].set_surface_mat(SurfaceMat(SurfaceMat::SURFACE_FOLIAGE));
    let v = view(&cells);
    let old = cells[idx(9, 8)];
    let mut lucky = old;
    apply_fire(&mut lucky, &old, v, IVec2::new(9, 8), true);
    assert_eq!(lucky.surface_mat().0, SurfaceMat::SURFACE_FIRE);
    assert_eq!(lucky.surface_state(), 0);
    let mut unlucky = old;
    apply_fire(&mut unlucky, &old, v, IVec2::new(9, 8), false);
    assert_eq!(unlucky, old);
}

#[test]
fn fire_ages_then_leaves_ash_or_nothing() {
    let mut cells = flat_grid(0);
    cells[idx(4, 4)].set_surface_mat(SurfaceMat(SurfaceMat::SURFACE_FIRE));
    cells[idx(4, 4)].set_surface_state(5);
    cells[idx(6, 6)].set_surface_mat(SurfaceMat(SurfaceMat::SURFACE_FIRE));
    cells[idx(6, 6)].set_surface_state(20);
    let v = view(&cells);
    let young = cells[idx(4, 4)];
    let mut c = young;
    apply_fire(&mut c, &young, v, IVec2::new(4, 4), false);
    assert_eq!(c.surface_state(), 6);
    let old_fire = cells[idx(6, 6)];
    let mut ash = old_fire;
    apply_fire(&mut ash, &old_fire, v, IVec2::new(6, 6), true);
    assert_eq!(ash.surface_mat().0, SurfaceMat::SURFACE_ASH);
    let mut gone = old_fire;
    apply_fire(&mut gone, &old_fire, v, IVec2::new(6, 6), false);
    assert_eq!(gone.surface_mat().0, SurfaceMat::EMPTY);
}

#[test]
fn water_puts_fire_out() {
    let mut cells = flat_grid(0);
    cells[idx(4, 4)].set_surface_mat(SurfaceMat(SurfaceMat::SURFACE_FIRE));
    cells[idx(4, 4)].set_fluid_mat(FluidMat(FluidMat::FLUID_WATER));
    cells[idx(4, 4)].set_fluid_vol(3);
    let v = view(&cells);
    let old = cells[idx(4, 4)];
    let mut c = old;
    apply_fire(&mut c, &old, v, IVec2::new(4, 4), true);
    assert_eq!(c.surface_mat().0, SurfaceMat::EMPTY);
    assert_eq!(c.surface_state(), 0);
}

#[test]
fn world_step_moves_water_without_losing_it() {
    let mut g = ActiveWorldGrid::new(64, 64, IVec2::new(0, 0));
    let mut wet = WorldCell::default();
    wet.set_fluid_mat(FluidMat(FluidMat::FLUID_WATER));
    wet.set_fluid_vol(200);
    g.set_cell(IVec2::new(32, 32), wet);
    let config = SimulationConfig { run_liquid: true, run_biology: false, run_granular: false, run_fire: false };
    let mut rng = rand::rngs::SmallRng::seed_from_u64(5);
    let before = total_fluid(&g.cells);
    for _ in 0..8 {
        let events = simulate_world(&mut g, &config, &mut rng);
        assert!(events.is_empty());
        assert_eq!(total_fluid(&g.cells), before);
    }
    assert_eq!(g.tick, 8);
    assert!(g.get_cell(IVec2::new(32, 32)).fluid_vol() < 200);
}

#[test]
fn a_still_world_falls_asleep() {
    let mut g = ActiveWorldGrid::new(64, 64, IVec2::new(0, 0));
    let config = SimulationConfig { run_liquid: true, run_biology: false, run_granular: true, run_fire: false };
    let mut rng = rand::rngs::SmallRng::seed_from_u64(1);
    for _ in 0..4 {
        simulate_world(&mut g, &config, &mut rng);
    }
    assert!(g.next_wake_buffer.iter().all(|w| *w == 0));
    assert!(g.cells.iter().all(|c| c.0 == 0));
}

#[test]
fn watered_ash_beside_a_mature_plant_always_sprouts() {
    let mut cells = flat_grid(0);
    let mut ash = WorldCell::default();
    ash.set_terrain_mat(monarch_engine::cell::TerrainMat(monarch_engine::cell::TerrainMat::TERRAIN_DIRT));
    ash.set_surface_mat(SurfaceMat(SurfaceMat::SURFACE_ASH));
    ash.set_fluid_mat(FluidMat(FluidMat::FLUID_WATER));
    ash.set_fluid_vol(5);
    let mut plant = WorldCell::default();
    plant.set_surface_mat(SurfaceMat(SurfaceMat::SURFACE_FOLIAGE));
    plant.set_surface_state(2);
    cells[idx(10, 10)] = ash;
    cells[idx(10, 11)] = plant;
    for seed in 0..20u64 {
        let mut rng = rand::rngs::SmallRng::seed_from_u64(seed);
        let mut cell = ash;
        let mut events = Vec::new();
        monarch_engine::sim::biology_hydrated::step_biology(&mut cell, &ash, view(&cells), IVec2::new(10, 10), &mut rng, &mut events);
        assert_eq!(cell.surface_mat(), SurfaceMat(SurfaceMat::SURFACE_FOLIAGE));
        assert_eq!(cell.surface_state(), 1);
        assert_eq!(cell.fluid_mat(), FluidMat(FluidMat::FLUID_WATER));
        assert_eq!(cell.fluid_vol(), 5);
    }
}

#[test]
fn a_quenched_fire_leaves_the_generator_alone() {
    let cells = flat_grid(0);
    let mut burning = WorldCell::default();
    burning.set_surface_mat(SurfaceMat(SurfaceMat::SURFACE_FIRE));
    burning.set_surface_state(7);
    burning.set_fluid_mat(FluidMat(FluidMat::FLUID_WATER));
    burning.set_fluid_vol(3);
    let mut rng = rand::rngs::SmallRng::seed_from_u64(3);
    let before = rng.clone();
    let mut cell = burning;
    let mut events = Vec::new();
    monarch_engine::sim::fire::step_fire(&mut cell, &burning, view(&cells), IVec2::new(5, 5), &mut rng, &mut events);
    assert_eq!(cell.surface_mat(), SurfaceMat(SurfaceMat::EMPTY));
    assert_eq!(cell.surface_state(), 0);
    assert!(rng == before);
}
