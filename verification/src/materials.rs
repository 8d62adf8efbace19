use vstd::prelude::*;
use crate::cell::{GranularMat, SurfaceMat, TerrainMat};

verus! {

/// Steepest height difference a pile of this granular material holds; `u16::MAX` when it does not flow.
pub open spec fn granular_repose(m: u8) -> u16 {
    if m == 6 {
        0
    } else if m == 3 {
        1
    } else if m == 2 || m == 7 {
        2
    } else if m == 5 {
        3
    } else if m == 4 || m == 1 {
        4
    } else {
        u16::MAX
    }
}

/// Steepest height difference this solid terrain holds; `u16::MAX` when it does not flow.
pub open spec fn terrain_repose(m: u8) -> u16 {
    if m == 3 {
        2
    } else if m == 4 {
        3
    } else if m == 2 {
        4
    } else {
        u16::MAX
    }
}

/// Surface materials that fire can consume.
pub open spec fn combustible(m: u8) -> bool {
    m == 2 || m == 3 || m == 4 || m == 6
}

pub fn get_granular_repose(material: GranularMat) -> (r: u16)
    ensures
        r == granular_repose(material.0),
{
    let m = material.0;
    if m == GranularMat::GRANULAR_LIQUID_METAL {
        0
    } else if m == GranularMat::GRANULAR_MUD {
        1
    } else if m == GranularMat::GRANULAR_SAND || m == GranularMat::GRANULAR_CORRUPTION {
        2
    } else if m == GranularMat::GRANULAR_SNOW {
        3
    } else if m == GranularMat::GRANULAR_GRAVEL || m == GranularMat::GRANULAR_DIRT {
        4
    } else {
        u16::MAX
    }
}

pub fn get_terrain_repose(material: TerrainMat) -> (r: u16)
    ensures
        r == terrain_repose(material.0),
{
    let m = material.0;
    if m == TerrainMat::TERRAIN_SANDSTONE {
        2
    } else if m == TerrainMat::TERRAIN_ICE {
        3
    } else if m == TerrainMat::TERRAIN_DIRT {
        4
    } else {
        u16::MAX
    }
}

pub fn is_combustible(material: SurfaceMat) -> (r: bool)
    ensures
        r == combustible(material.0),
{
    let m = material.0;
    m == SurfaceMat::SURFACE_FOLIAGE || m == SurfaceMat::SURFACE_WOOD || m
        == SurfaceMat::SURFACE_FLESH || m == SurfaceMat::SURFACE_ROT
}

/// Steepest solid-terrain step that creeping terrain holds before it slides: sandstone and ice
/// slide, every other terrain stays put (`u16::MAX`).
pub open spec fn creep_repose(m: u8) -> u16 {
    if m == 3 {
        2
    } else if m == 4 {
        3
    } else {
        u16::MAX
    }
}

pub fn get_angle_of_repose(mat: TerrainMat) -> (r: u16)
    ensures
        r == creep_repose(mat.0),
{
    if mat.0 == TerrainMat::TERRAIN_SANDSTONE {
        2
    } else if mat.0 == TerrainMat::TERRAIN_ICE {
        3
    } else {
        u16::MAX
    }
}

} // verus!
