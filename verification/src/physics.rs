use vstd::prelude::*;
use crate::cell::WorldCell;
use crate::geom::IVec2;
use crate::hash::{spatial_hash, spatial_hash_spec};

verus! {

/// Height of the floor under any fluid: solid elevation plus loose granular volume.
pub open spec fn floor_height(c: WorldCell) -> int {
    c@.elevation + c@.granular_vol
}

/// Height of the fluid surface: the floor plus the fluid volume.
pub open spec fn fluid_surface(c: WorldCell) -> int {
    c@.elevation + c@.granular_vol + c@.fluid_vol
}

/// Half of a height difference, rounded down; when that is zero but the heights differ,
/// one unit moves on ticks whose hash at `pos` is even, so surfaces settle flat.
pub open spec fn half_with_slosh(diff: int, x: i32, y: i32, tick: u32) -> int {
    if diff / 2 == 0 && diff >= 1 && spatial_hash_spec(x, y, tick) % 2 == 0 {
        1
    } else {
        diff / 2
    }
}

pub open spec fn min3(a: int, b: int, c: int) -> int {
    if a <= b && a <= c {
        a
    } else if b <= c {
        b
    } else {
        c
    }
}

/// Granular volume that moves from `src` to `dst`: half the difference in floor height,
/// capped by what `src` holds and by the room left in `dst`.
pub open spec fn granular_transfer(src: WorldCell, dst: WorldCell, x: i32, y: i32, tick: u32) -> int {
    if floor_height(dst) >= floor_height(src) {
        0
    } else {
        min3(
            half_with_slosh(floor_height(src) - floor_height(dst), x, y, tick),
            src@.granular_vol as int,
            WorldCell::MAX_GRANULAR_VOL - dst@.granular_vol,
        )
    }
}

/// Fluid volume that moves from `src` to `dst`: half the difference in fluid surface height,
/// capped by what `src` holds and by the room left in `dst`.
pub open spec fn liquid_transfer(src: WorldCell, dst: WorldCell, x: i32, y: i32, tick: u32) -> int {
    if fluid_surface(dst) >= fluid_surface(src) {
        0
    } else {
        min3(
            half_with_slosh(fluid_surface(src) - fluid_surface(dst), x, y, tick),
            src@.fluid_vol as int,
            WorldCell::MAX_FLUID_VOL - dst@.fluid_vol,
        )
    }
}

fn min_u32(a: u32, b: u32) -> (r: u32)
    ensures
        r == if a <= b {
            a
        } else {
            b
        },
{
    if a <= b {
        a
    } else {
        b
    }
}

/// Computes the granular volume that flows from `source_cell` to `dest_cell`.
pub fn calc_granular_transfer(source_cell: &WorldCell, dest_cell: &WorldCell, world_position: IVec2, tick: u32) -> (r: u16)
    ensures
        r == granular_transfer(*source_cell, *dest_cell, world_position.x, world_position.y, tick),
{
    proof {
        crate::cell::lemma_cell_fields_bounded(*source_cell);
        crate::cell::lemma_cell_fields_bounded(*dest_cell);
    }
    let source_total = source_cell.elevation() as u32 + source_cell.granular_vol() as u32;
    let dest_total = dest_cell.elevation() as u32 + dest_cell.granular_vol() as u32;
    if dest_total >= source_total {
        return 0;
    }
    let diff = source_total - dest_total;
    let mut amount = diff / 2;
    if amount == 0 && diff >= 1 && spatial_hash(world_position, tick) % 2 == 0 {
        amount = 1;
    }
    let room = (WorldCell::MAX_GRANULAR_VOL as u32).saturating_sub(dest_cell.granular_vol() as u32);
    min_u32(min_u32(amount, source_cell.granular_vol() as u32), room) as u16
}

/// Computes the fluid volume that flows from `source_cell` to `dest_cell`.
pub fn calc_liquid_transfer(source_cell: &WorldCell, dest_cell: &WorldCell, world_position: IVec2, tick: u32) -> (r: u16)
    ensures
        r == liquid_transfer(*source_cell, *dest_cell, world_position.x, world_position.y, tick),
{
    proof {
        crate::cell::lemma_cell_fields_bounded(*source_cell);
        crate::cell::lemma_cell_fields_bounded(*dest_cell);
    }
    let source_floor = source_cell.elevation() as u32 + source_cell.granular_vol() as u32;
    let dest_floor = dest_cell.elevation() as u32 + dest_cell.granular_vol() as u32;
    let source_total = source_floor + source_cell.fluid_vol() as u32;
    let dest_total = dest_floor + dest_cell.fluid_vol() as u32;
    if dest_total >= source_total {
        return 0;
    }
    let diff = source_total - dest_total;
    let mut amount = diff / 2;
    if amount == 0 && diff >= 1 && spatial_hash(world_position, tick) % 2 == 0 {
        amount = 1;
    }
    let room = (WorldCell::MAX_FLUID_VOL as u32).saturating_sub(dest_cell.fluid_vol() as u32);
    min_u32(min_u32(amount, source_cell.fluid_vol() as u32), room) as u16
}

/// What a granular transfer moves is never negative, never more than the source holds, never
/// overfills the destination, never goes uphill, and, going downhill, leaves the destination's floor
/// at most one unit above the source's.
pub proof fn law_granular_transfer_bounds(src: WorldCell, dst: WorldCell, x: i32, y: i32, tick: u32)
    ensures
        0 <= granular_transfer(src, dst, x, y, tick) <= src@.granular_vol,
        dst@.granular_vol + granular_transfer(src, dst, x, y, tick) <= WorldCell::MAX_GRANULAR_VOL,
        floor_height(dst) >= floor_height(src) ==> granular_transfer(src, dst, x, y, tick) == 0,
        floor_height(dst) < floor_height(src) ==> floor_height(dst) + granular_transfer(src, dst, x, y, tick) <= floor_height(src)
            - granular_transfer(src, dst, x, y, tick) + 1,
{
    crate::cell::lemma_cell_fields_bounded(src);
    crate::cell::lemma_cell_fields_bounded(dst);
    let d = floor_height(src) - floor_height(dst);
    if d > 0 {
        vstd::arithmetic::div_mod::lemma_fundamental_div_mod(d, 2);
        assert(2 * half_with_slosh(d, x, y, tick) <= d + 1);
        assert(granular_transfer(src, dst, x, y, tick) <= half_with_slosh(d, x, y, tick));
    }
}

/// What a liquid transfer moves is never negative, never more than the source holds, never
/// overfills the destination, never goes uphill, and, going downhill, leaves the destination's
/// surface at most one unit above the source's.
pub proof fn law_liquid_transfer_bounds(src: WorldCell, dst: WorldCell, x: i32, y: i32, tick: u32)
    ensures
        0 <= liquid_transfer(src, dst, x, y, tick) <= src@.fluid_vol,
        dst@.fluid_vol + liquid_transfer(src, dst, x, y, tick) <= WorldCell::MAX_FLUID_VOL,
        fluid_surface(dst) >= fluid_surface(src) ==> liquid_transfer(src, dst, x, y, tick) == 0,
        fluid_surface(dst) < fluid_surface(src) ==> fluid_surface(dst) + liquid_transfer(src, dst, x, y, tick) <= fluid_surface(src)
            - liquid_transfer(src, dst, x, y, tick) + 1,
{
    crate::cell::lemma_cell_fields_bounded(src);
    crate::cell::lemma_cell_fields_bounded(dst);
    let d = fluid_surface(src) - fluid_surface(dst);
    if d > 0 {
        vstd::arithmetic::div_mod::lemma_fundamental_div_mod(d, 2);
        assert(2 * half_with_slosh(d, x, y, tick) <= d + 1);
        assert(liquid_transfer(src, dst, x, y, tick) <= half_with_slosh(d, x, y, tick));
    }
}

} // verus!
