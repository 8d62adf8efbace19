use monarch_engine::cell::{FluidMat, GranularMat, SurfaceMat, TerrainMat, WorldCell};
use monarch_engine::chunk::{ChunkKey, ChunkTheme, CHUNK_CELL_COUNT};
use monarch_engine::geom::IVec3;
use monarch_engine::terrain_gen::WorldGenerator;
use rand::SeedableRng;

#[test]
fn low_ground_is_a_flooded_seabed() {
    let mut rng = rand::rngs::StdRng::seed_from_u64(1);
    let c = WorldGenerator::generate_cell(&mut rng, 60);
    assert_eq!(c.elevation(), 60);
    assert_eq!(c.terrain_mat().0, TerrainMat::TERRAIN_STONE);
    assert_eq!(c.granular_mat().0, GranularMat::GRANULAR_SAND);
    assert_eq!(c.granular_vol(), 2);
    assert_eq!(c.fluid_mat().0, FluidMat::FLUID_WATER);
    assert_eq!(c.fluid_vol(), 40);
    assert!(c.variants() < WorldCell::MAX_VARIANTS);
    assert_eq!(c.surface_mat().0, SurfaceMat::EMPTY);
}

#[test]
fn middle_ground_is_a_sandstone_beach() {
    let mut rng = rand::rngs::StdRng::seed_from_u64(2);
    let c = WorldGenerator::generate_cell(&mut rng, 110);
    assert_eq!(c.terrain_mat().0, TerrainMat::TERRAIN_SANDSTONE);
    assert_eq!(c.granular_vol(), 5);
    assert_eq!(c.fluid_vol(), 0);
    assert_eq!(c.fluid_mat().0, FluidMat::EMPTY);
}

#[test]
fn high_ground_is_dirt_with_young_foliage() {
    let mut rng = rand::rngs::StdRng::seed_from_u64(3);
    for _ in 0..50 {
        let c = WorldGenerator::generate_cell(&mut rng, 200);
        assert_eq!(c.terrain_mat().0, TerrainMat::TERRAIN_DIRT);
        assert_eq!(c.surface_mat().0, SurfaceMat::SURFACE_FOLIAGE);
        assert!(c.surface_state() < 10);
        assert_eq!(c.granular_vol(), 0);
    }
}

#[test]
fn chunk_seed_mixes_the_coordinates() {
    let g = WorldGenerator::new(42);
    let k = ChunkKey { key: IVec3 { x: 1, y: -1, z: 0 } };
    assert_eq!(g.chunk_seed(k), 8589934549);
    let g7 = WorldGenerator::new(7);
    assert_eq!(g7.chunk_seed(ChunkKey { key: IVec3 { x: 0, y: 0, z: 0 } }), 7);
}

#[test]
fn a_chunk_is_generated_the_same_way_twice() {
    let g = WorldGenerator::new(9);
    let k = ChunkKey { key: IVec3 { x: 3, y: 4, z: 0 } };
    let heights: Vec<u16> = (0..CHUNK_CELL_COUNT).map(|i| (i % 256) as u16).collect();
    let a = g.generate_chunk(k, &heights);
    let b = g.generate_chunk(k, &heights);
    assert_eq!(a.cells, b.cells);
    assert_eq!(a.cells.len(), CHUNK_CELL_COUNT);
    assert_eq!(a.theme, ChunkTheme(ChunkTheme::GRASS_PLAINS));
    assert_eq!(a.last_simulated, 0);
    assert_eq!(a.cells[99].elevation(), 99);
    assert_eq!(a.cells[99].fluid_vol(), 1);
}
