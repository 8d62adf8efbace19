use vstd::prelude::*;

verus! {

/// Solid terrain material (4 bits of a packed cell).
#[derive(Debug, Clone, Copy, PartialEq, Eq, Structural)]
pub struct TerrainMat(pub u8);

impl TerrainMat {
    pub const EMPTY: u8 = 0;
    pub const TERRAIN_STONE: u8 = 1;
    pub const TERRAIN_DIRT: u8 = 2;
    pub const TERRAIN_SANDSTONE: u8 = 3;
    pub const TERRAIN_ICE: u8 = 4;
    pub const TERRAIN_METAL: u8 = 5;
    pub const TERRAIN_CORRUPTION: u8 = 6;
}

/// Surface material lying on top of the terrain (4 bits of a packed cell).
#[derive(Debug, Clone, Copy, PartialEq, Eq, Structural)]
pub struct SurfaceMat(pub u8);

impl SurfaceMat {
    pub const EMPTY: u8 = 0;
    pub const SURFACE_FIRE: u8 = 1;
    pub const SURFACE_FOLIAGE: u8 = 2;
    pub const SURFACE_WOOD: u8 = 3;
    pub const SURFACE_FLESH: u8 = 4;
    pub const SURFACE_BONE: u8 = 5;
    pub const SURFACE_ROT: u8 = 6;
    pub const SURFACE_ASH: u8 = 7;
    pub const SURFACE_SNOW: u8 = 8;
    pub const SURFACE_CLAY: u8 = 9;
    pub const SURFACE_ICE: u8 = 10;
    pub const SURFACE_METAL: u8 = 11;
    pub const SURFACE_GLASS: u8 = 12;
    pub const SURFACE_CORRUPTION: u8 = 13;
}

/// Loose granular material (3 bits of a packed cell).
#[derive(Debug, Clone, Copy, PartialEq, Eq, Structural)]
pub struct GranularMat(pub u8);

impl GranularMat {
    pub const EMPTY: u8 = 0;
    pub const GRANULAR_DIRT: u8 = 1;
    pub const GRANULAR_SAND: u8 = 2;
    pub const GRANULAR_MUD: u8 = 3;
    pub const GRANULAR_GRAVEL: u8 = 4;
    pub const GRANULAR_SNOW: u8 = 5;
    pub const GRANULAR_LIQUID_METAL: u8 = 6;
    pub const GRANULAR_CORRUPTION: u8 = 7;
}

/// Fluid material (4 bits of a packed cell).
#[derive(Debug, Clone, Copy, PartialEq, Eq, Structural)]
pub struct FluidMat(pub u8);

impl FluidMat {
    pub const EMPTY: u8 = 0;
    pub const FLUID_WATER: u8 = 1;
    pub const FLUID_MAGMA: u8 = 2;
    pub const FLUID_BLOOD: u8 = 3;
    pub const FLUID_ACID: u8 = 4;
    pub const FLUID_OIL: u8 = 5;
    pub const FLUID_CORRUPTION: u8 = 6;
}

/// Direction bits kept in a cell's compass/momentum field.
pub struct CompassFlags;

impl CompassFlags {
    pub const FACING_N: u8 = 1;
    pub const FACING_S: u8 = 2;
    pub const FACING_E: u8 = 4;
    pub const FACING_W: u8 = 8;
}

/// The bit field of `bits` that starts at `shift` and is selected by the low mask `mask`.
pub open spec fn bit_field(bits: u64, shift: u64, mask: u64) -> u64 {
    (bits >> shift) & mask
}

/// `bits` with the field at `shift`/`mask` replaced by the low bits of `val`.
pub open spec fn put_field(bits: u64, val: u64, shift: u64, mask: u64) -> u64 {
    (bits & !(mask << shift)) | ((val & mask) << shift)
}

/// The eleven fields of a packed cell, each as the unsigned number its bits encode.
pub ghost struct CellFields {
    pub terrain_mat: u64,
    pub surface_mat: u64,
    pub granular_mat: u64,
    pub fluid_mat: u64,
    pub variants: u64,
    pub elevation: u64,
    pub fluid_vol: u64,
    pub granular_vol: u64,
    pub surface_state: u64,
    pub terrain_state: u64,
    pub compass: u64,
}

/// One grid cell packed into 64 bits.
///
/// Bits 0-3 terrain material, 4-7 surface material, 8-10 granular material,
/// 11-14 fluid material, 15-19 variants, 20-31 elevation, 32-40 fluid volume,
/// 41-49 granular volume, 50-55 surface state, 56-59 terrain state, 60-63 compass.
#[derive(Debug, Clone, Copy, PartialEq, Eq, Structural)]
pub struct WorldCell(pub u64);

impl Default for WorldCell {
    /// The all-zero cell: every material empty, every amount zero.
    fn default() -> (r: Self)
        ensures
            r.0 == 0,
    {
        WorldCell(0)
    }
}

pub open spec fn cell_fields(b: u64) -> CellFields {
    CellFields {
        terrain_mat: bit_field(b, 0, 0xF),
        surface_mat: bit_field(b, 4, 0xF),
        granular_mat: bit_field(b, 8, 0x7),
        fluid_mat: bit_field(b, 11, 0xF),
        variants: bit_field(b, 15, 0x1F),
        elevation: bit_field(b, 20, 0xFFF),
        fluid_vol: bit_field(b, 32, 0x1FF),
        granular_vol: bit_field(b, 41, 0x1FF),
        surface_state: bit_field(b, 50, 0x3F),
        terrain_state: bit_field(b, 56, 0xF),
        compass: bit_field(b, 60, 0xF),
    }
}

impl View for WorldCell {
    type V = CellFields;

    open spec fn view(&self) -> CellFields {
        cell_fields(self.0)
    }
}

proof fn lemma_field_bounds(b: u64)
    by (bit_vector)
    ensures
        bit_field(b, 0, 0xF) <= 0xF,
        bit_field(b, 4, 0xF) <= 0xF,
        bit_field(b, 8, 0x7) <= 0x7,
        bit_field(b, 11, 0xF) <= 0xF,
        bit_field(b, 15, 0x1F) <= 0x1F,
        bit_field(b, 20, 0xFFF) <= 0xFFF,
        bit_field(b, 32, 0x1FF) <= 0x1FF,
        bit_field(b, 41, 0x1FF) <= 0x1FF,
        bit_field(b, 50, 0x3F) <= 0x3F,
        bit_field(b, 56, 0xF) <= 0xF,
        bit_field(b, 60, 0xF) <= 0xF,
{
}

/// Every field of a cell lies within the range its bit width allows.
pub proof fn lemma_cell_fields_bounded(c: WorldCell)
    ensures
        c@.terrain_mat <= 15,
        c@.surface_mat <= 15,
        c@.granular_mat <= 7,
        c@.fluid_mat <= 15,
        c@.variants <= WorldCell::MAX_VARIANTS,
        c@.elevation <= WorldCell::MAX_ELEVATION,
        c@.fluid_vol <= WorldCell::MAX_FLUID_VOL,
        c@.granular_vol <= WorldCell::MAX_GRANULAR_VOL,
        c@.surface_state <= WorldCell::MAX_SURFACE_STATE,
        c@.terrain_state <= WorldCell::MAX_TERRAIN_STATE,
        c@.compass <= 15,
{
    lemma_field_bounds(c.0);
}

/// Masking a value that already fits in the mask leaves it unchanged.
pub proof fn lemma_mask_noop(x: u64)
    by (bit_vector)
    ensures
        x <= 0x7 ==> x & 0x7 == x,
        x <= 0xF ==> x & 0xF == x,
        x <= 0x1F ==> x & 0x1F == x,
        x <= 0x3F ==> x & 0x3F == x,
        x <= 0x1FF ==> x & 0x1FF == x,
        x <= 0xFFF ==> x & 0xFFF == x,
{
}

proof fn lemma_fields_determine_bits(a: u64, b: u64)
    by (bit_vector)
    requires
        bit_field(a, 0, 0xF) == bit_field(b, 0, 0xF),
        bit_field(a, 4, 0xF) == bit_field(b, 4, 0xF),
        bit_field(a, 8, 0x7) == bit_field(b, 8, 0x7),
        bit_field(a, 11, 0xF) == bit_field(b, 11, 0xF),
        bit_field(a, 15, 0x1F) == bit_field(b, 15, 0x1F),
        bit_field(a, 20, 0xFFF) == bit_field(b, 20, 0xFFF),
        bit_field(a, 32, 0x1FF) == bit_field(b, 32, 0x1FF),
        bit_field(a, 41, 0x1FF) == bit_field(b, 41, 0x1FF),
        bit_field(a, 50, 0x3F) == bit_field(b, 50, 0x3F),
        bit_field(a, 56, 0xF) == bit_field(b, 56, 0xF),
        bit_field(a, 60, 0xF) == bit_field(b, 60, 0xF),
    ensures
        a == b,
{
}

/// The eleven fields cover all 64 bits: two cells with the same fields are the same cell.
pub proof fn lemma_cell_fields_injective(a: WorldCell, b: WorldCell)
    requires
        a@ == b@,
    ensures
        a == b,
{
    lemma_fields_determine_bits(a.0, b.0);
}

impl CellFields {
    /// These fields with `terrain_mat` replaced by `v`.
    pub open spec fn with_terrain_mat(self, v: u64) -> CellFields {
        CellFields { terrain_mat: v, surface_mat: self.surface_mat, granular_mat: self.granular_mat, fluid_mat: self.fluid_mat, variants: self.variants, elevation: self.elevation, fluid_vol: self.fluid_vol, granular_vol: self.granular_vol, surface_state: self.surface_state, terrain_state: self.terrain_state, compass: self.compass }
    }

    /// These fields with `surface_mat` replaced by `v`.
    pub open spec fn with_surface_mat(self, v: u64) -> CellFields {
        CellFields { surface_mat: v, terrain_mat: self.terrain_mat, granular_mat: self.granular_mat, fluid_mat: self.fluid_mat, variants: self.variants, elevation: self.elevation, fluid_vol: self.fluid_vol, granular_vol: self.granular_vol, surface_state: self.surface_state, terrain_state: self.terrain_state, compass: self.compass }
    }

    /// These fields with `granular_mat` replaced by `v`.
    pub open spec fn with_granular_mat(self, v: u64) -> CellFields {
        CellFields { granular_mat: v, terrain_mat: self.terrain_mat, surface_mat: self.surface_mat, fluid_mat: self.fluid_mat, variants: self.variants, elevation: self.elevation, fluid_vol: self.fluid_vol, granular_vol: self.granular_vol, surface_state: self.surface_state, terrain_state: self.terrain_state, compass: self.compass }
    }

    /// These fields with `fluid_mat` replaced by `v`.
    pub open spec fn with_fluid_mat(self, v: u64) -> CellFields {
        CellFields { fluid_mat: v, terrain_mat: self.terrain_mat, surface_mat: self.surface_mat, granular_mat: self.granular_mat, variants: self.variants, elevation: self.elevation, fluid_vol: self.fluid_vol, granular_vol: self.granular_vol, surface_state: self.surface_state, terrain_state: self.terrain_state, compass: self.compass }
    }

    /// These fields with `variants` replaced by `v`.
    pub open spec fn with_variants(self, v: u64) -> CellFields {
        CellFields { variants: v, terrain_mat: self.terrain_mat, surface_mat: self.surface_mat, granular_mat: self.granular_mat, fluid_mat: self.fluid_mat, elevation: self.elevation, fluid_vol: self.fluid_vol, granular_vol: self.granular_vol, surface_state: self.surface_state, terrain_state: self.terrain_state, compass: self.compass }
    }

    /// These fields with `elevation` replaced by `v`.
    pub open spec fn with_elevation(self, v: u64) -> CellFields {
        CellFields { elevation: v, terrain_mat: self.terrain_mat, surface_mat: self.surface_mat, granular_mat: self.granular_mat, fluid_mat: self.fluid_mat, variants: self.variants, fluid_vol: self.fluid_vol, granular_vol: self.granular_vol, surface_state: self.surface_state, terrain_state: self.terrain_state, compass: self.compass }
    }

    /// These fields with `fluid_vol` replaced by `v`.
    pub open spec fn with_fluid_vol(self, v: u64) -> CellFields {
        CellFields { fluid_vol: v, terrain_mat: self.terrain_mat, surface_mat: self.surface_mat, granular_mat: self.granular_mat, fluid_mat: self.fluid_mat, variants: self.variants, elevation: self.elevation, granular_vol: self.granular_vol, surface_state: self.surface_state, terrain_state: self.terrain_state, compass: self.compass }
    }

    /// These fields with `granular_vol` replaced by `v`.
    pub open spec fn with_granular_vol(self, v: u64) -> CellFields {
        CellFields { granular_vol: v, terrain_mat: self.terrain_mat, surface_mat: self.surface_mat, granular_mat: self.granular_mat, fluid_mat: self.fluid_mat, variants: self.variants, elevation: self.elevation, fluid_vol: self.fluid_vol, surface_state: self.surface_state, terrain_state: self.terrain_state, compass: self.compass }
    }

    /// These fields with `surface_state` replaced by `v`.
    pub open spec fn with_surface_state(self, v: u64) -> CellFields {
        CellFields { surface_state: v, terrain_mat: self.terrain_mat, surface_mat: self.surface_mat, granular_mat: self.granular_mat, fluid_mat: self.fluid_mat, variants: self.variants, elevation: self.elevation, fluid_vol: self.fluid_vol, granular_vol: self.granular_vol, terrain_state: self.terrain_state, compass: self.compass }
    }

    /// These fields with `terrain_state` replaced by `v`.
    pub open spec fn with_terrain_state(self, v: u64) -> CellFields {
        CellFields { terrain_state: v, terrain_mat: self.terrain_mat, surface_mat: self.surface_mat, granular_mat: self.granular_mat, fluid_mat: self.fluid_mat, variants: self.variants, elevation: self.elevation, fluid_vol: self.fluid_vol, granular_vol: self.granular_vol, surface_state: self.surface_state, compass: self.compass }
    }

    /// These fields with `compass` replaced by `v`.
    pub open spec fn with_compass(self, v: u64) -> CellFields {
        CellFields { compass: v, terrain_mat: self.terrain_mat, surface_mat: self.surface_mat, granular_mat: self.granular_mat, fluid_mat: self.fluid_mat, variants: self.variants, elevation: self.elevation, fluid_vol: self.fluid_vol, granular_vol: self.granular_vol, surface_state: self.surface_state, terrain_state: self.terrain_state }
    }

}

proof fn lemma_put_terrain_mat(b: u64, v: u64)
    by (bit_vector)
    ensures
        bit_field(put_field(b, v, 0, 0xF), 0, 0xF) == v & 0xF,
        bit_field(put_field(b, v, 0, 0xF), 4, 0xF) == bit_field(b, 4, 0xF),
        bit_field(put_field(b, v, 0, 0xF), 8, 0x7) == bit_field(b, 8, 0x7),
        bit_field(put_field(b, v, 0, 0xF), 11, 0xF) == bit_field(b, 11, 0xF),
        bit_field(put_field(b, v, 0, 0xF), 15, 0x1F) == bit_field(b, 15, 0x1F),
        bit_field(put_field(b, v, 0, 0xF), 20, 0xFFF) == bit_field(b, 20, 0xFFF),
        bit_field(put_field(b, v, 0, 0xF), 32, 0x1FF) == bit_field(b, 32, 0x1FF),
        bit_field(put_field(b, v, 0, 0xF), 41, 0x1FF) == bit_field(b, 41, 0x1FF),
        bit_field(put_field(b, v, 0, 0xF), 50, 0x3F) == bit_field(b, 50, 0x3F),
        bit_field(put_field(b, v, 0, 0xF), 56, 0xF) == bit_field(b, 56, 0xF),
        bit_field(put_field(b, v, 0, 0xF), 60, 0xF) == bit_field(b, 60, 0xF),
{
}

proof fn lemma_put_surface_mat(b: u64, v: u64)
    by (bit_vector)
    ensures
        bit_field(put_field(b, v, 4, 0xF), 0, 0xF) == bit_field(b, 0, 0xF),
        bit_field(put_field(b, v, 4, 0xF), 4, 0xF) == v & 0xF,
        bit_field(put_field(b, v, 4, 0xF), 8, 0x7) == bit_field(b, 8, 0x7),
        bit_field(put_field(b, v, 4, 0xF), 11, 0xF) == bit_field(b, 11, 0xF),
        bit_field(put_field(b, v, 4, 0xF), 15, 0x1F) == bit_field(b, 15, 0x1F),
        bit_field(put_field(b, v, 4, 0xF), 20, 0xFFF) == bit_field(b, 20, 0xFFF),
        bit_field(put_field(b, v, 4, 0xF), 32, 0x1FF) == bit_field(b, 32, 0x1FF),
        bit_field(put_field(b, v, 4, 0xF), 41, 0x1FF) == bit_field(b, 41, 0x1FF),
        bit_field(put_field(b, v, 4, 0xF), 50, 0x3F) == bit_field(b, 50, 0x3F),
        bit_field(put_field(b, v, 4, 0xF), 56, 0xF) == bit_field(b, 56, 0xF),
        bit_field(put_field(b, v, 4, 0xF), 60, 0xF) == bit_field(b, 60, 0xF),
{
}

proof fn lemma_put_granular_mat(b: u64, v: u64)
    by (bit_vector)
    ensures
        bit_field(put_field(b, v, 8, 0x7), 0, 0xF) == bit_field(b, 0, 0xF),
        bit_field(put_field(b, v, 8, 0x7), 4, 0xF) == bit_field(b, 4, 0xF),
        bit_field(put_field(b, v, 8, 0x7), 8, 0x7) == v & 0x7,
        bit_field(put_field(b, v, 8, 0x7), 11, 0xF) == bit_field(b, 11, 0xF),
        bit_field(put_field(b, v, 8, 0x7), 15, 0x1F) == bit_field(b, 15, 0x1F),
        bit_field(put_field(b, v, 8, 0x7), 20, 0xFFF) == bit_field(b, 20, 0xFFF),
        bit_field(put_field(b, v, 8, 0x7), 32, 0x1FF) == bit_field(b, 32, 0x1FF),
        bit_field(put_field(b, v, 8, 0x7), 41, 0x1FF) == bit_field(b, 41, 0x1FF),
        bit_field(put_field(b, v, 8, 0x7), 50, 0x3F) == bit_field(b, 50, 0x3F),
        bit_field(put_field(b, v, 8, 0x7), 56, 0xF) == bit_field(b, 56, 0xF),
        bit_field(put_field(b, v, 8, 0x7), 60, 0xF) == bit_field(b, 60, 0xF),
{
}

proof fn lemma_put_fluid_mat(b: u64, v: u64)
    by (bit_vector)
    ensures
        bit_field(put_field(b, v, 11, 0xF), 0, 0xF) == bit_field(b, 0, 0xF),
        bit_field(put_field(b, v, 11, 0xF), 4, 0xF) == bit_field(b, 4, 0xF),
        bit_field(put_field(b, v, 11, 0xF), 8, 0x7) == bit_field(b, 8, 0x7),
        bit_field(put_field(b, v, 11, 0xF), 11, 0xF) == v & 0xF,
        bit_field(put_field(b, v, 11, 0xF), 15, 0x1F) == bit_field(b, 15, 0x1F),
        bit_field(put_field(b, v, 11, 0xF), 20, 0xFFF) == bit_field(b, 20, 0xFFF),
        bit_field(put_field(b, v, 11, 0xF), 32, 0x1FF) == bit_field(b, 32, 0x1FF),
        bit_field(put_field(b, v, 11, 0xF), 41, 0x1FF) == bit_field(b, 41, 0x1FF),
        bit_field(put_field(b, v, 11, 0xF), 50, 0x3F) == bit_field(b, 50, 0x3F),
        bit_field(put_field(b, v, 11, 0xF), 56, 0xF) == bit_field(b, 56, 0xF),
        bit_field(put_field(b, v, 11, 0xF), 60, 0xF) == bit_field(b, 60, 0xF),
{
}

proof fn lemma_put_variants(b: u64, v: u64)
    by (bit_vector)
    ensures
        bit_field(put_field(b, v, 15, 0x1F), 0, 0xF) == bit_field(b, 0, 0xF),
        bit_field(put_field(b, v, 15, 0x1F), 4, 0xF) == bit_field(b, 4, 0xF),
        bit_field(put_field(b, v, 15, 0x1F), 8, 0x7) == bit_field(b, 8, 0x7),
        bit_field(put_field(b, v, 15, 0x1F), 11, 0xF) == bit_field(b, 11, 0xF),
        bit_field(put_field(b, v, 15, 0x1F), 15, 0x1F) == v & 0x1F,
        bit_field(put_field(b, v, 15, 0x1F), 20, 0xFFF) == bit_field(b, 20, 0xFFF),
        bit_field(put_field(b, v, 15, 0x1F), 32, 0x1FF) == bit_field(b, 32, 0x1FF),
        bit_field(put_field(b, v, 15, 0x1F), 41, 0x1FF) == bit_field(b, 41, 0x1FF),
        bit_field(put_field(b, v, 15, 0x1F), 50, 0x3F) == bit_field(b, 50, 0x3F),
        bit_field(put_field(b, v, 15, 0x1F), 56, 0xF) == bit_field(b, 56, 0xF),
        bit_field(put_field(b, v, 15, 0x1F), 60, 0xF) == bit_field(b, 60, 0xF),
{
}

proof fn lemma_put_elevation(b: u64, v: u64)
    by (bit_vector)
    ensures
        bit_field(put_field(b, v, 20, 0xFFF), 0, 0xF) == bit_field(b, 0, 0xF),
        bit_field(put_field(b, v, 20, 0xFFF), 4, 0xF) == bit_field(b, 4, 0xF),
        bit_field(put_field(b, v, 20, 0xFFF), 8, 0x7) == bit_field(b, 8, 0x7),
        bit_field(put_field(b, v, 20, 0xFFF), 11, 0xF) == bit_field(b, 11, 0xF),
        bit_field(put_field(b, v, 20, 0xFFF), 15, 0x1F) == bit_field(b, 15, 0x1F),
        bit_field(put_field(b, v, 20, 0xFFF), 20, 0xFFF) == v & 0xFFF,
        bit_field(put_field(b, v, 20, 0xFFF), 32, 0x1FF) == bit_field(b, 32, 0x1FF),
        bit_field(put_field(b, v, 20, 0xFFF), 41, 0x1FF) == bit_field(b, 41, 0x1FF),
        bit_field(put_field(b, v, 20, 0xFFF), 50, 0x3F) == bit_field(b, 50, 0x3F),
        bit_field(put_field(b, v, 20, 0xFFF), 56, 0xF) == bit_field(b, 56, 0xF),
        bit_field(put_field(b, v, 20, 0xFFF), 60, 0xF) == bit_field(b, 60, 0xF),
{
}

proof fn lemma_put_fluid_vol(b: u64, v: u64)
    by (bit_vector)
    ensures
        bit_field(put_field(b, v, 32, 0x1FF), 0, 0xF) == bit_field(b, 0, 0xF),
        bit_field(put_field(b, v, 32, 0x1FF), 4, 0xF) == bit_field(b, 4, 0xF),
        bit_field(put_field(b, v, 32, 0x1FF), 8, 0x7) == bit_field(b, 8, 0x7),
        bit_field(put_field(b, v, 32, 0x1FF), 11, 0xF) == bit_field(b, 11, 0xF),
        bit_field(put_field(b, v, 32, 0x1FF), 15, 0x1F) == bit_field(b, 15, 0x1F),
        bit_field(put_field(b, v, 32, 0x1FF), 20, 0xFFF) == bit_field(b, 20, 0xFFF),
        bit_field(put_field(b, v, 32, 0x1FF), 32, 0x1FF) == v & 0x1FF,
        bit_field(put_field(b, v, 32, 0x1FF), 41, 0x1FF) == bit_field(b, 41, 0x1FF),
        bit_field(put_field(b, v, 32, 0x1FF), 50, 0x3F) == bit_field(b, 50, 0x3F),
        bit_field(put_field(b, v, 32, 0x1FF), 56, 0xF) == bit_field(b, 56, 0xF),
        bit_field(put_field(b, v, 32, 0x1FF), 60, 0xF) == bit_field(b, 60, 0xF),
{
}

proof fn lemma_put_granular_vol(b: u64, v: u64)
    by (bit_vector)
    ensures
        bit_field(put_field(b, v, 41, 0x1FF), 0, 0xF) == bit_field(b, 0, 0xF),
        bit_field(put_field(b, v, 41, 0x1FF), 4, 0xF) == bit_field(b, 4, 0xF),
        bit_field(put_field(b, v, 41, 0x1FF), 8, 0x7) == bit_field(b, 8, 0x7),
        bit_field(put_field(b, v, 41, 0x1FF), 11, 0xF) == bit_field(b, 11, 0xF),
        bit_field(put_field(b, v, 41, 0x1FF), 15, 0x1F) == bit_field(b, 15, 0x1F),
        bit_field(put_field(b, v, 41, 0x1FF), 20, 0xFFF) == bit_field(b, 20, 0xFFF),
        bit_field(put_field(b, v, 41, 0x1FF), 32, 0x1FF) == bit_field(b, 32, 0x1FF),
        bit_field(put_field(b, v, 41, 0x1FF), 41, 0x1FF) == v & 0x1FF,
        bit_field(put_field(b, v, 41, 0x1FF), 50, 0x3F) == bit_field(b, 50, 0x3F),
        bit_field(put_field(b, v, 41, 0x1FF), 56, 0xF) == bit_field(b, 56, 0xF),
        bit_field(put_field(b, v, 41, 0x1FF), 60, 0xF) == bit_field(b, 60, 0xF),
{
}

proof fn lemma_put_surface_state(b: u64, v: u64)
    by (bit_vector)
    ensures
        bit_field(put_field(b, v, 50, 0x3F), 0, 0xF) == bit_field(b, 0, 0xF),
        bit_field(put_field(b, v, 50, 0x3F), 4, 0xF) == bit_field(b, 4, 0xF),
        bit_field(put_field(b, v, 50, 0x3F), 8, 0x7) == bit_field(b, 8, 0x7),
        bit_field(put_field(b, v, 50, 0x3F), 11, 0xF) == bit_field(b, 11, 0xF),
        bit_field(put_field(b, v, 50, 0x3F), 15, 0x1F) == bit_field(b, 15, 0x1F),
        bit_field(put_field(b, v, 50, 0x3F), 20, 0xFFF) == bit_field(b, 20, 0xFFF),
        bit_field(put_field(b, v, 50, 0x3F), 32, 0x1FF) == bit_field(b, 32, 0x1FF),
        bit_field(put_field(b, v, 50, 0x3F), 41, 0x1FF) == bit_field(b, 41, 0x1FF),
        bit_field(put_field(b, v, 50, 0x3F), 50, 0x3F) == v & 0x3F,
        bit_field(put_field(b, v, 50, 0x3F), 56, 0xF) == bit_field(b, 56, 0xF),
        bit_field(put_field(b, v, 50, 0x3F), 60, 0xF) == bit_field(b, 60, 0xF),
{
}

proof fn lemma_put_terrain_state(b: u64, v: u64)
    by (bit_vector)
    ensures
        bit_field(put_field(b, v, 56, 0xF), 0, 0xF) == bit_field(b, 0, 0xF),
        bit_field(put_field(b, v, 56, 0xF), 4, 0xF) == bit_field(b, 4, 0xF),
        bit_field(put_field(b, v, 56, 0xF), 8, 0x7) == bit_field(b, 8, 0x7),
        bit_field(put_field(b, v, 56, 0xF), 11, 0xF) == bit_field(b, 11, 0xF),
        bit_field(put_field(b, v, 56, 0xF), 15, 0x1F) == bit_field(b, 15, 0x1F),
        bit_field(put_field(b, v, 56, 0xF), 20, 0xFFF) == bit_field(b, 20, 0xFFF),
        bit_field(put_field(b, v, 56, 0xF), 32, 0x1FF) == bit_field(b, 32, 0x1FF),
        bit_field(put_field(b, v, 56, 0xF), 41, 0x1FF) == bit_field(b, 41, 0x1FF),
        bit_field(put_field(b, v, 56, 0xF), 50, 0x3F) == bit_field(b, 50, 0x3F),
        bit_field(put_field(b, v, 56, 0xF), 56, 0xF) == v & 0xF,
        bit_field(put_field(b, v, 56, 0xF), 60, 0xF) == bit_field(b, 60, 0xF),
{
}

proof fn lemma_put_compass(b: u64, v: u64)
    by (bit_vector)
    ensures
        bit_field(put_field(b, v, 60, 0xF), 0, 0xF) == bit_field(b, 0, 0xF),
        bit_field(put_field(b, v, 60, 0xF), 4, 0xF) == bit_field(b, 4, 0xF),
        bit_field(put_field(b, v, 60, 0xF), 8, 0x7) == bit_field(b, 8, 0x7),
        bit_field(put_field(b, v, 60, 0xF), 11, 0xF) == bit_field(b, 11, 0xF),
        bit_field(put_field(b, v, 60, 0xF), 15, 0x1F) == bit_field(b, 15, 0x1F),
        bit_field(put_field(b, v, 60, 0xF), 20, 0xFFF) == bit_field(b, 20, 0xFFF),
        bit_field(put_field(b, v, 60, 0xF), 32, 0x1FF) == bit_field(b, 32, 0x1FF),
        bit_field(put_field(b, v, 60, 0xF), 41, 0x1FF) == bit_field(b, 41, 0x1FF),
        bit_field(put_field(b, v, 60, 0xF), 50, 0x3F) == bit_field(b, 50, 0x3F),
        bit_field(put_field(b, v, 60, 0xF), 56, 0xF) == bit_field(b, 56, 0xF),
        bit_field(put_field(b, v, 60, 0xF), 60, 0xF) == v & 0xF,
{
}

impl WorldCell {
    const MAT_TERRAIN_SHIFT: u64 = 0;
    const MAT_TERRAIN_MASK: u64 = 0xF;
    const MAT_SURFACE_SHIFT: u64 = 4;
    const MAT_SURFACE_MASK: u64 = 0xF;
    const MAT_GRANULAR_SHIFT: u64 = 8;
    const MAT_GRANULAR_MASK: u64 = 0x7;
    const MAT_FLUID_SHIFT: u64 = 11;
    const MAT_FLUID_MASK: u64 = 0xF;
    const VARIANTS_SHIFT: u64 = 15;
    const VARIANTS_MASK: u64 = 0x1F;
    const ELEVATION_SHIFT: u64 = 20;
    const ELEVATION_MASK: u64 = 0xFFF;
    const FLUID_VOL_SHIFT: u64 = 32;
    const FLUID_VOL_MASK: u64 = 0x1FF;
    const GRANULAR_VOL_SHIFT: u64 = 41;
    const GRANULAR_VOL_MASK: u64 = 0x1FF;
    const SURFACE_STATE_SHIFT: u64 = 50;
    const SURFACE_STATE_MASK: u64 = 0x3F;
    const TERRAIN_STATE_SHIFT: u64 = 56;
    const TERRAIN_STATE_MASK: u64 = 0xF;
    const COMPASS_SHIFT: u64 = 60;
    const COMPASS_MASK: u64 = 0xF;

    pub const MAX_ELEVATION: u32 = 4095;
    pub const MAX_FLUID_VOL: u16 = 511;
    pub const MAX_GRANULAR_VOL: u16 = 511;
    pub const MAX_SURFACE_STATE: u8 = 63;
    pub const MAX_TERRAIN_STATE: u8 = 15;
    pub const MAX_VARIANTS: u8 = 31;

    pub fn terrain_mat(&self) -> (r: TerrainMat)
        ensures
            r.0 == self@.terrain_mat,
    {
        proof {
            lemma_field_bounds(self.0);
        }
        TerrainMat(((self.0 >> Self::MAT_TERRAIN_SHIFT) & Self::MAT_TERRAIN_MASK) as u8)
    }

    pub fn set_terrain_mat(&mut self, v: TerrainMat)
        ensures
            final(self)@ == old(self)@.with_terrain_mat(v.0 as u64 & 0xF),
    {
        proof {
            lemma_put_terrain_mat(self.0, v.0 as u64);
        }
        self.0 = (self.0 & !(Self::MAT_TERRAIN_MASK << Self::MAT_TERRAIN_SHIFT)) | (((v.0 as u64) & Self::MAT_TERRAIN_MASK) << Self::MAT_TERRAIN_SHIFT);
    }

    pub fn surface_mat(&self) -> (r: SurfaceMat)
        ensures
            r.0 == self@.surface_mat,
    {
        proof {
            lemma_field_bounds(self.0);
        }
        SurfaceMat(((self.0 >> Self::MAT_SURFACE_SHIFT) & Self::MAT_SURFACE_MASK) as u8)
    }

    pub fn set_surface_mat(&mut self, v: SurfaceMat)
        ensures
            final(self)@ == old(self)@.with_surface_mat(v.0 as u64 & 0xF),
    {
        proof {
            lemma_put_surface_mat(self.0, v.0 as u64);
        }
        self.0 = (self.0 & !(Self::MAT_SURFACE_MASK << Self::MAT_SURFACE_SHIFT)) | (((v.0 as u64) & Self::MAT_SURFACE_MASK) << Self::MAT_SURFACE_SHIFT);
    }

    pub fn granular_mat(&self) -> (r: GranularMat)
        ensures
            r.0 == self@.granular_mat,
    {
        proof {
            lemma_field_bounds(self.0);
        }
        GranularMat(((self.0 >> Self::MAT_GRANULAR_SHIFT) & Self::MAT_GRANULAR_MASK) as u8)
    }

    pub fn set_granular_mat(&mut self, v: GranularMat)
        ensures
            final(self)@ == old(self)@.with_granular_mat(v.0 as u64 & 0x7),
    {
        proof {
            lemma_put_granular_mat(self.0, v.0 as u64);
        }
        self.0 = (self.0 & !(Self::MAT_GRANULAR_MASK << Self::MAT_GRANULAR_SHIFT)) | (((v.0 as u64) & Self::MAT_GRANULAR_MASK) << Self::MAT_GRANULAR_SHIFT);
    }

    pub fn fluid_mat(&self) -> (r: FluidMat)
        ensures
            r.0 == self@.fluid_mat,
    {
        proof {
            lemma_field_bounds(self.0);
        }
        FluidMat(((self.0 >> Self::MAT_FLUID_SHIFT) & Self::MAT_FLUID_MASK) as u8)
    }

    pub fn set_fluid_mat(&mut self, v: FluidMat)
        ensures
            final(self)@ == old(self)@.with_fluid_mat(v.0 as u64 & 0xF),
    {
        proof {
            lemma_put_fluid_mat(self.0, v.0 as u64);
        }
        self.0 = (self.0 & !(Self::MAT_FLUID_MASK << Self::MAT_FLUID_SHIFT)) | (((v.0 as u64) & Self::MAT_FLUID_MASK) << Self::MAT_FLUID_SHIFT);
    }

    pub fn variants(&self) -> (r: u8)
        ensures
            r == self@.variants,
    {
        proof {
            lemma_field_bounds(self.0);
        }
        ((self.0 >> Self::VARIANTS_SHIFT) & Self::VARIANTS_MASK) as u8
    }

    pub fn set_variants(&mut self, v: u8)
        ensures
            final(self)@ == old(self)@.with_variants(v as u64 & 0x1F),
    {
        proof {
            lemma_put_variants(self.0, v as u64);
        }
        self.0 = (self.0 & !(Self::VARIANTS_MASK << Self::VARIANTS_SHIFT)) | (((v as u64) & Self::VARIANTS_MASK) << Self::VARIANTS_SHIFT);
    }

    pub fn elevation(&self) -> (r: u16)
        ensures
            r == self@.elevation,
    {
        proof {
            lemma_field_bounds(self.0);
        }
        ((self.0 >> Self::ELEVATION_SHIFT) & Self::ELEVATION_MASK) as u16
    }

    pub fn set_elevation(&mut self, v: u16)
        ensures
            final(self)@ == old(self)@.with_elevation(v as u64 & 0xFFF),
    {
        proof {
            lemma_put_elevation(self.0, v as u64);
        }
        self.0 = (self.0 & !(Self::ELEVATION_MASK << Self::ELEVATION_SHIFT)) | (((v as u64) & Self::ELEVATION_MASK) << Self::ELEVATION_SHIFT);
    }

    pub fn fluid_vol(&self) -> (r: u16)
        ensures
            r == self@.fluid_vol,
    {
        proof {
            lemma_field_bounds(self.0);
        }
        ((self.0 >> Self::FLUID_VOL_SHIFT) & Self::FLUID_VOL_MASK) as u16
    }

    pub fn set_fluid_vol(&mut self, v: u16)
        ensures
            final(self)@ == old(self)@.with_fluid_vol(v as u64 & 0x1FF),
    {
        proof {
            lemma_put_fluid_vol(self.0, v as u64);
        }
        self.0 = (self.0 & !(Self::FLUID_VOL_MASK << Self::FLUID_VOL_SHIFT)) | (((v as u64) & Self::FLUID_VOL_MASK) << Self::FLUID_VOL_SHIFT);
    }

    pub fn granular_vol(&self) -> (r: u16)
        ensures
            r == self@.granular_vol,
    {
        proof {
            lemma_field_bounds(self.0);
        }
        ((self.0 >> Self::GRANULAR_VOL_SHIFT) & Self::GRANULAR_VOL_MASK) as u16
    }

    pub fn set_granular_vol(&mut self, v: u16)
        ensures
            final(self)@ == old(self)@.with_granular_vol(v as u64 & 0x1FF),
    {
        proof {
            lemma_put_granular_vol(self.0, v as u64);
        }
        self.0 = (self.0 & !(Self::GRANULAR_VOL_MASK << Self::GRANULAR_VOL_SHIFT)) | (((v as u64) & Self::GRANULAR_VOL_MASK) << Self::GRANULAR_VOL_SHIFT);
    }

    pub fn surface_state(&self) -> (r: u8)
        ensures
            r == self@.surface_state,
    {
        proof {
            lemma_field_bounds(self.0);
        }
        ((self.0 >> Self::SURFACE_STATE_SHIFT) & Self::SURFACE_STATE_MASK) as u8
    }

    pub fn set_surface_state(&mut self, v: u8)
        ensures
            final(self)@ == old(self)@.with_surface_state(v as u64 & 0x3F),
    {
        proof {
            lemma_put_surface_state(self.0, v as u64);
        }
        self.0 = (self.0 & !(Self::SURFACE_STATE_MASK << Self::SURFACE_STATE_SHIFT)) | (((v as u64) & Self::SURFACE_STATE_MASK) << Self::SURFACE_STATE_SHIFT);
    }

    pub fn terrain_state(&self) -> (r: u8)
        ensures
            r == self@.terrain_state,
    {
        proof {
            lemma_field_bounds(self.0);
        }
        ((self.0 >> Self::TERRAIN_STATE_SHIFT) & Self::TERRAIN_STATE_MASK) as u8
    }

    pub fn set_terrain_state(&mut self, v: u8)
        ensures
            final(self)@ == old(self)@.with_terrain_state(v as u64 & 0xF),
    {
        proof {
            lemma_put_terrain_state(self.0, v as u64);
        }
        self.0 = (self.0 & !(Self::TERRAIN_STATE_MASK << Self::TERRAIN_STATE_SHIFT)) | (((v as u64) & Self::TERRAIN_STATE_MASK) << Self::TERRAIN_STATE_SHIFT);
    }

    pub fn compass(&self) -> (r: u8)
        ensures
            r == self@.compass,
    {
        proof {
            lemma_field_bounds(self.0);
        }
        ((self.0 >> Self::COMPASS_SHIFT) & Self::COMPASS_MASK) as u8
    }

    pub fn set_compass(&mut self, v: u8)
        ensures
            final(self)@ == old(self)@.with_compass(v as u64 & 0xF),
    {
        proof {
            lemma_put_compass(self.0, v as u64);
        }
        self.0 = (self.0 & !(Self::COMPASS_MASK << Self::COMPASS_SHIFT)) | (((v as u64) & Self::COMPASS_MASK) << Self::COMPASS_SHIFT);
    }

}

} // verus!
