use monarch_engine::cell::{FluidMat, GranularMat, SurfaceMat, TerrainMat, WorldCell};
use monarch_engine::flags::{MetaFlags, EntityFlags};
use monarch_engine::materials::{get_angle_of_repose, get_granular_repose, get_terrain_repose, is_combustible};
use monarch_engine::pixel::{MaterialId, Pixel, PixelFlags};

#[test]
fn every_field_reads_back_what_was_written() {
    let mut c = WorldCell::default();
    c.set_terrain_mat(TerrainMat(TerrainMat::TERRAIN_ICE));
    c.set_surface_mat(SurfaceMat(SurfaceMat::SURFACE_ROT));
    c.set_granular_mat(GranularMat(GranularMat::GRANULAR_SNOW));
    c.set_fluid_mat(FluidMat(FluidMat::FLUID_OIL));
    c.set_variants(17);
    c.set_elevation(3000);
    c.set_fluid_vol(400);
    c.set_granular_vol(300);
    c.set_surface_state(50);
    c.set_terrain_state(9);
    c.set_compass(12);
    assert_eq!(c.terrain_mat().0, TerrainMat::TERRAIN_ICE);
    assert_eq!(c.surface_mat().0, SurfaceMat::SURFACE_ROT);
    assert_eq!(c.granular_mat().0, GranularMat::GRANULAR_SNOW);
    assert_eq!(c.fluid_mat().0, FluidMat::FLUID_OIL);
    assert_eq!(c.variants(), 17);
    assert_eq!(c.elevation(), 3000);
    assert_eq!(c.fluid_vol(), 400);
    assert_eq!(c.granular_vol(), 300);
    assert_eq!(c.surface_state(), 50);
    assert_eq!(c.terrain_state(), 9);
    assert_eq!(c.compass(), 12);
}

#[test]
fn setting_one_field_leaves_the_others() {
    let mut c = WorldCell::default();
    c.set_elevation(4095);
    c.set_fluid_vol(511);
    c.set_granular_mat(GranularMat(GranularMat::GRANULAR_MUD));
    c.set_fluid_vol(7);
    assert_eq!(c.elevation(), 4095);
    assert_eq!(c.fluid_vol(), 7);
    assert_eq!(c.granular_mat().0, GranularMat::GRANULAR_MUD);
    assert_eq!(c.granular_vol(), 0);
    assert_eq!(c.compass(), 0);
}

#[test]
fn oversized_values_keep_only_their_field_bits() {
    let mut c = WorldCell::default();
    c.set_variants(0xFF);
    c.set_elevation(0xFFFF);
    c.set_terrain_state(0xFF);
    assert_eq!(c.variants(), 0x1F);
    assert_eq!(c.elevation(), 0xFFF);
    assert_eq!(c.terrain_state(), 0xF);
    assert_eq!(c.compass(), 0);
    assert_eq!(c.surface_state(), 0);
}

#[test]
fn default_cell_is_all_zero() {
    assert_eq!(WorldCell::default().0, 0);
}

#[test]
fn meta_flags_insert_contains_remove() {
    let mut f = MetaFlags(MetaFlags::NONE);
    f.insert(MetaFlags(MetaFlags::NEARBY_LAND));
    f.insert(MetaFlags(MetaFlags::FOREST_FIRE));
    assert!(f.contains(MetaFlags(MetaFlags::NEARBY_LAND)));
    assert!(f.contains(MetaFlags(MetaFlags::NEARBY_LAND | MetaFlags::FOREST_FIRE)));
    assert!(!f.contains(MetaFlags(MetaFlags::INFESTED_AREA)));
    f.remove(MetaFlags(MetaFlags::NEARBY_LAND));
    assert!(!f.contains(MetaFlags(MetaFlags::NEARBY_LAND)));
    assert!(f.contains(MetaFlags(MetaFlags::FOREST_FIRE)));
    assert_eq!(f.0, MetaFlags::FOREST_FIRE);
    assert_eq!(EntityFlags::NONE, 0);
}

#[test]
fn pixel_flags_insert_contains_remove() {
    let mut f = PixelFlags(PixelFlags::NONE);
    assert!(f.contains(PixelFlags(PixelFlags::NONE)));
    f.insert(PixelFlags(PixelFlags::IS_SOLID));
    assert!(f.contains(PixelFlags(PixelFlags::IS_SOLID)));
    assert!(!f.contains(PixelFlags(PixelFlags::WAKES_AWAKE)));
    f.insert(PixelFlags(PixelFlags::WAKES_AWAKE));
    f.remove(PixelFlags(PixelFlags::IS_SOLID));
    assert_eq!(f.0, PixelFlags::WAKES_AWAKE);
    let p = Pixel::default();
    assert_eq!(p.material, MaterialId(MaterialId::EMPTY));
    assert_eq!(p.flags, PixelFlags(PixelFlags::NONE));
}

#[test]
fn repose_angles_per_material() {
    assert_eq!(get_granular_repose(GranularMat(GranularMat::GRANULAR_LIQUID_METAL)), 0);
    assert_eq!(get_granular_repose(GranularMat(GranularMat::GRANULAR_MUD)), 1);
    assert_eq!(get_granular_repose(GranularMat(GranularMat::GRANULAR_SAND)), 2);
    assert_eq!(get_granular_repose(GranularMat(GranularMat::GRANULAR_CORRUPTION)), 2);
    assert_eq!(get_granular_repose(GranularMat(GranularMat::GRANULAR_SNOW)), 3);
    assert_eq!(get_granular_repose(GranularMat(GranularMat::GRANULAR_GRAVEL)), 4);
    assert_eq!(get_granular_repose(GranularMat(GranularMat::GRANULAR_DIRT)), 4);
    assert_eq!(get_granular_repose(GranularMat(GranularMat::EMPTY)), u16::MAX);
    assert_eq!(get_terrain_repose(TerrainMat(TerrainMat::TERRAIN_SANDSTONE)), 2);
    assert_eq!(get_terrain_repose(TerrainMat(TerrainMat::TERRAIN_ICE)), 3);
    assert_eq!(get_terrain_repose(TerrainMat(TerrainMat::TERRAIN_DIRT)), 4);
    assert_eq!(get_terrain_repose(TerrainMat(TerrainMat::TERRAIN_STONE)), u16::MAX);
    assert_eq!(get_angle_of_repose(TerrainMat(TerrainMat::TERRAIN_SANDSTONE)), 2);
    assert_eq!(get_angle_of_repose(TerrainMat(TerrainMat::TERRAIN_ICE)), 3);
    assert_eq!(get_angle_of_repose(TerrainMat(TerrainMat::TERRAIN_METAL)), u16::MAX);
}

#[test]
fn only_organic_surfaces_burn() {
    assert!(is_combustible(SurfaceMat(SurfaceMat::SURFACE_FOLIAGE)));
    assert!(is_combustible(SurfaceMat(SurfaceMat::SURFACE_WOOD)));
    assert!(is_combustible(SurfaceMat(SurfaceMat::SURFACE_FLESH)));
    assert!(is_combustible(SurfaceMat(SurfaceMat::SURFACE_ROT)));
    assert!(!is_combustible(SurfaceMat(SurfaceMat::SURFACE_ASH)));
    assert!(!is_combustible(SurfaceMat(SurfaceMat::SURFACE_FIRE)));
    assert!(!is_combustible(SurfaceMat(SurfaceMat::EMPTY)));
}
