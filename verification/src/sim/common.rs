use vstd::prelude::*;
use crate::cell::{CellFields, WorldCell};
use crate::grid::{GridModel, GridReadView};
use crate::geom::IVec2;
use crate::dirs::unit_offset;

verus! {

/// `p` lies at least `m` cells away from the ends of the `i32` range on both axes,
/// so offsets of up to `m` can be added without overflow.
pub open spec fn interior(p: IVec2, m: int) -> bool {
    &&& i32::MIN + m <= p.x <= i32::MAX - m
    &&& i32::MIN + m <= p.y <= i32::MAX - m
}

/// `p` moved by `d`.
pub open spec fn shifted(p: IVec2, d: IVec2) -> IVec2 {
    IVec2 { x: (p.x + d.x) as i32, y: (p.y + d.y) as i32 }
}

pub fn offset(p: IVec2, d: IVec2) -> (r: IVec2)
    requires
        interior(p, 1),
        unit_offset(d),
    ensures
        r == shifted(p, d),
        r.x == p.x + d.x,
        r.y == p.y + d.y,
{
    IVec2 { x: p.x + d.x, y: p.y + d.y }
}

/// A found neighbour paired with its buffer slot.
pub open spec fn with_index(view: GridModel, o: Option<IVec2>) -> Option<(usize, IVec2)> {
    match o {
        Some(q) => Some((view.index_of(q) as usize, q)),
        None => None,
    }
}

pub open spec fn sat_add_u16(a: int, b: int) -> int {
    if a + b > u16::MAX {
        u16::MAX as int
    } else {
        a + b
    }
}

pub open spec fn sat_sub(a: int, b: int) -> int {
    if a - b < 0 {
        0
    } else {
        a - b
    }
}

} // verus!

verus! {

/// Something a cellular rule asks the engine to do outside the grid.
#[allow(inconsistent_fields)]
pub enum GridEvent {
    SpawnTerrainParticle { pos: IVec2, material: crate::cell::TerrainMat },
    SpawnFluidParticle { pos: IVec2, material: crate::cell::FluidMat },
    ApplyDamage { pos: IVec2, amount: u32 },
    PlaySound { pos: IVec2, sound_id: u8 },
}

/// The `k`-th offset of the 3 x 3 block around a cell, row by row from `(-1, -1)`; `k == 4` is the cell itself.
pub open spec fn ring_offset(k: int) -> IVec2 {
    IVec2 { x: (k % 3 - 1) as i32, y: (k / 3 - 1) as i32 }
}

/// How many of the first `n` offsets of the 3 x 3 block around `pos`, the cell itself left out,
/// name an in-window cell satisfying `pred`.
pub open spec fn count_ring(view: GridModel, pos: IVec2, pred: spec_fn(WorldCell) -> bool, n: int) -> int
    decreases n,
{
    if n <= 0 {
        0
    } else {
        count_ring(view, pos, pred, n - 1) + if n - 1 != 4 && (match view.cell_at(shifted(pos, ring_offset(n - 1))) {
            Some(c) => pred(c),
            None => false,
        }) {
            1int
        } else {
            0int
        }
    }
}

pub proof fn lemma_count_ring_bounds(view: GridModel, pos: IVec2, pred: spec_fn(WorldCell) -> bool, n: int)
    requires
        0 <= n <= 9,
    ensures
        0 <= count_ring(view, pos, pred, n) <= n,
        n > 4 ==> count_ring(view, pos, pred, n) <= n - 1,
    decreases n,
{
    if n > 0 {
        lemma_count_ring_bounds(view, pos, pred, n - 1);
    }
}

/// The `k`-th offset of the 3 x 3 block, computed.
pub fn ring_offset_exec(k: u32) -> (r: IVec2)
    requires
        k < 9,
    ensures
        r == ring_offset(k as int),
        unit_offset(r),
{
    IVec2 { x: (k % 3) as i32 - 1, y: (k / 3) as i32 - 1 }
}

} // verus!
