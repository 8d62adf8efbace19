use vstd::prelude::*;
use crate::cell::{lemma_mask_noop, CellFields, FluidMat, GranularMat, SurfaceMat, TerrainMat, WorldCell};
use crate::chunk::{ChunkKey, ChunkTheme, CHUNK_CELL_COUNT};
use crate::stream::ChunkData;

verus! {

/// The seedable standard generator of `rand`.
#[verifier::external_type_specification]
#[verifier::external_body]
pub struct ExStdRng(rand::rngs::StdRng);

/// The OpenSimplex noise function of `noise`.
#[verifier::external_type_specification]
#[verifier::external_body]
pub struct ExOpenSimplex(noise::OpenSimplex);

/// Calls `SeedableRng::seed_from_u64` for `StdRng`; nothing is stated of the generator's state.
#[verifier::external_body]
fn std_rng_from_seed(seed: u64) -> rand::rngs::StdRng {
    rand::SeedableRng::seed_from_u64(seed)
}

/// Calls `RngExt::random_range` on `0..upper`: some value below `upper`, as the documentation of
/// `random_range` promises for a non-empty range; which one depends on the generator.
#[verifier::external_body]
fn random_below(rng: &mut rand::rngs::StdRng, upper: u8) -> (r: u8)
    requires
        upper > 0,
    ensures
        r < upper,
{
    rand::RngExt::random_range(rng, 0..upper)
}

/// The OpenSimplex noise function that `OpenSimplex::new` builds from `seed`.
pub uninterp spec fn open_simplex_of(seed: u32) -> noise::OpenSimplex;

/// Calls `OpenSimplex::new` with `seed`. The noise it builds (its permutation table) is a
/// function of the seed alone, named `open_simplex_of`; nothing more about it is stated.
#[verifier::external_body]
fn open_simplex(seed: u32) -> (r: noise::OpenSimplex)
    ensures
        r == open_simplex_of(seed),
{
    noise::OpenSimplex::new(seed)
}

/// The fields every generated cell starts from: all zero.
pub open spec fn zero_fields() -> CellFields {
    CellFields {
        terrain_mat: 0,
        surface_mat: 0,
        granular_mat: 0,
        fluid_mat: 0,
        variants: 0,
        elevation: 0,
        fluid_vol: 0,
        granular_vol: 0,
        surface_state: 0,
        terrain_state: 0,
        compass: 0,
    }
}

/// The cell generated at `elevation` with the drawn `variants` and `surface_state`: below 100 a
/// flooded stone seabed under a thin layer of sand; below 120 a sandstone beach; above, dirt
/// covered in foliage.
pub open spec fn generated_fields(elevation: u64, variants: u64, surface_state: u64) -> CellFields {
    let base = zero_fields().with_elevation(elevation).with_variants(variants);
    if elevation < 100 {
        base.with_terrain_mat(TerrainMat::TERRAIN_STONE as u64).with_granular_mat(
            GranularMat::GRANULAR_SAND as u64,
        ).with_granular_vol(2).with_fluid_mat(FluidMat::FLUID_WATER as u64).with_fluid_vol(
            (100 - elevation) as u64,
        )
    } else if elevation < 120 {
        base.with_terrain_mat(TerrainMat::TERRAIN_SANDSTONE as u64).with_granular_mat(
            GranularMat::GRANULAR_SAND as u64,
        ).with_granular_vol(5)
    } else {
        base.with_terrain_mat(TerrainMat::TERRAIN_DIRT as u64).with_surface_mat(
            SurfaceMat::SURFACE_FOLIAGE as u64,
        ).with_surface_state(surface_state)
    }
}

/// What a generated cell is made of at each height: below 100 a stone seabed under two units of
/// sand and water up to height 100; from 100 to 119 a sandstone beach under five units of sand;
/// from 120 up dirt covered in foliage. Every cell keeps its height and drawn look.
pub proof fn law_generated_terrain(elevation: u64, variants: u64, surface_state: u64)
    ensures
        ({
            let c = generated_fields(elevation, variants, surface_state);
            &&& c.elevation == elevation
            &&& c.variants == variants
            &&& elevation < 100 ==> c.terrain_mat == TerrainMat::TERRAIN_STONE && c.granular_mat
                == GranularMat::GRANULAR_SAND && c.granular_vol == 2 && c.fluid_mat == FluidMat::FLUID_WATER
                && c.fluid_vol + elevation == 100 && c.surface_mat == 0
            &&& 100 <= elevation < 120 ==> c.terrain_mat == TerrainMat::TERRAIN_SANDSTONE && c.granular_mat
                == GranularMat::GRANULAR_SAND && c.granular_vol == 5 && c.fluid_mat == 0 && c.fluid_vol == 0
                && c.surface_mat == 0
            &&& 120 <= elevation ==> c.terrain_mat == TerrainMat::TERRAIN_DIRT && c.surface_mat
                == SurfaceMat::SURFACE_FOLIAGE && c.surface_state == surface_state && c.granular_mat == 0
                && c.granular_vol == 0 && c.fluid_mat == 0 && c.fluid_vol == 0
        }),
{
}

/// The seed of a chunk's generator: the world seed with the chunk's coordinates xor-ed in at
/// bit 32 (x), bit 0 (y) and bit 16 (z).
pub open spec fn chunk_seed_spec(seed: u32, key: ChunkKey) -> u64 {
    (seed as u64) ^ (((key.key.x as u32) as u64) << 32u64) ^ ((key.key.y as u32) as u64) ^ (((key.key.z as u32) as u64)
        << 16u64)
}

proof fn lemma_zero_cell()
    by (bit_vector)
    ensures
        crate::cell::bit_field(0, 0, 0xF) == 0,
        crate::cell::bit_field(0, 4, 0xF) == 0,
        crate::cell::bit_field(0, 8, 0x7) == 0,
        crate::cell::bit_field(0, 11, 0xF) == 0,
        crate::cell::bit_field(0, 15, 0x1F) == 0,
        crate::cell::bit_field(0, 20, 0xFFF) == 0,
        crate::cell::bit_field(0, 32, 0x1FF) == 0,
        crate::cell::bit_field(0, 41, 0x1FF) == 0,
        crate::cell::bit_field(0, 50, 0x3F) == 0,
        crate::cell::bit_field(0, 56, 0xF) == 0,
        crate::cell::bit_field(0, 60, 0xF) == 0,
{
}

/// Builds the chunks of the engine's world from a seed.
pub struct WorldGenerator {
    pub seed: u32,
    pub elevation_noise: noise::OpenSimplex,
}

impl WorldGenerator {
    pub fn new(seed: u32) -> (r: Self)
        ensures
            r.seed == seed,
            r.elevation_noise == open_simplex_of(seed),
    {
        WorldGenerator { seed, elevation_noise: open_simplex(seed) }
    }

    /// The seed of the generator of chunk `key`'s random details.
    pub fn chunk_seed(&self, key: ChunkKey) -> (r: u64)
        ensures
            r == chunk_seed_spec(self.seed, key),
    {
        (self.seed as u64) ^ (((key.key.x as u32) as u64) << 32) ^ ((key.key.y as u32) as u64) ^ (((
        key.key.z as u32) as u64) << 16)
    }

    /// One cell at the given height (0 to 255, from the elevation noise), with a random look
    /// and, on dry land, a random foliage state below 10.
    pub fn generate_cell(rng: &mut rand::rngs::StdRng, elevation: u16) -> (r: WorldCell)
        requires
            elevation <= 255,
        ensures
            r@.variants < WorldCell::MAX_VARIANTS,
            elevation >= 120 ==> r@.surface_state < 10,
            r@ == generated_fields(elevation as u64, r@.variants, r@.surface_state),
            100 <= elevation < 120 ==> r@.terrain_mat == TerrainMat::TERRAIN_SANDSTONE && r@.granular_mat
                == GranularMat::GRANULAR_SAND && r@.granular_vol == 5,
            elevation < 100 ==> r@.terrain_mat == TerrainMat::TERRAIN_STONE && r@.granular_mat
                == GranularMat::GRANULAR_SAND && r@.fluid_mat == FluidMat::FLUID_WATER && r@.fluid_vol + elevation
                == 100,
            elevation >= 120 ==> r@.terrain_mat == TerrainMat::TERRAIN_DIRT && r@.surface_mat
                == SurfaceMat::SURFACE_FOLIAGE,
    {
        let mut cell = WorldCell::default();
        proof {
            lemma_zero_cell();
            assert(cell@ == zero_fields());
            lemma_mask_noop(elevation as u64);
            lemma_mask_noop(1);
            lemma_mask_noop(2);
            lemma_mask_noop(3);
            lemma_mask_noop(5);
        }
        cell.set_elevation(elevation);
        let variants = random_below(rng, WorldCell::MAX_VARIANTS);
        proof {
            lemma_mask_noop(variants as u64);
        }
        cell.set_variants(variants);
        if elevation < 100 {
            proof {
                lemma_mask_noop((100 - elevation) as u64);
            }
            cell.set_terrain_mat(TerrainMat(TerrainMat::TERRAIN_STONE));
            cell.set_granular_mat(GranularMat(GranularMat::GRANULAR_SAND));
            cell.set_granular_vol(2);
            cell.set_fluid_mat(FluidMat(FluidMat::FLUID_WATER));
            cell.set_fluid_vol(100 - elevation);
        } else if elevation < 120 {
            cell.set_terrain_mat(TerrainMat(TerrainMat::TERRAIN_SANDSTONE));
            cell.set_granular_mat(GranularMat(GranularMat::GRANULAR_SAND));
            cell.set_granular_vol(5);
        } else {
            cell.set_terrain_mat(TerrainMat(TerrainMat::TERRAIN_DIRT));
            cell.set_surface_mat(SurfaceMat(SurfaceMat::SURFACE_FOLIAGE));
            let state = random_below(rng, 10);
            proof {
                lemma_mask_noop(state as u64);
            }
            cell.set_surface_state(state);
        }
        proof {
            law_generated_terrain(elevation as u64, cell@.variants, cell@.surface_state);
        }
        cell
    }

    /// The cells of chunk `key`, row by row, from the heights the elevation noise gives them;
    /// the chunk is a grass plain, never simulated yet.
    pub fn generate_chunk(&self, key: ChunkKey, elevations: &[u16]) -> (r: ChunkData)
        requires
            elevations@.len() == CHUNK_CELL_COUNT,
            forall|i: int| 0 <= i < elevations@.len() ==> elevations@[i] <= 255,
        ensures
            r.cells@.len() == CHUNK_CELL_COUNT,
            forall|i: int|
                0 <= i < CHUNK_CELL_COUNT ==> {
                    let c = #[trigger] r.cells@[i];
                    &&& c@.variants < WorldCell::MAX_VARIANTS
                    &&& elevations@[i] >= 120 ==> c@.surface_state < 10
                    &&& c@ == generated_fields(elevations@[i] as u64, c@.variants, c@.surface_state)
                },
            r.last_simulated == 0,
            r.theme == ChunkTheme(ChunkTheme::GRASS_PLAINS),
    {
        let mut rng = std_rng_from_seed(self.chunk_seed(key));
        let mut cells: Vec<WorldCell> = Vec::new();
        let mut i: usize = 0;
        while i < CHUNK_CELL_COUNT
            invariant
                i <= CHUNK_CELL_COUNT,
                elevations@.len() == CHUNK_CELL_COUNT,
                forall|j: int| 0 <= j < elevations@.len() ==> elevations@[j] <= 255,
                cells@.len() == i,
                forall|j: int|
                    0 <= j < i ==> {
                        let c = #[trigger] cells@[j];
                        &&& c@.variants < WorldCell::MAX_VARIANTS
                        &&& elevations@[j] >= 120 ==> c@.surface_state < 10
                        &&& c@ == generated_fields(elevations@[j] as u64, c@.variants, c@.surface_state)
                    },
            decreases CHUNK_CELL_COUNT - i,
        {
            let cell = Self::generate_cell(&mut rng, elevations[i]);
            cells.push(cell);
            i = i + 1;
        }
        ChunkData { cells, last_simulated: 0, theme: ChunkTheme(ChunkTheme::GRASS_PLAINS) }
    }
}

} // verus!
