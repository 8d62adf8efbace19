use vstd::prelude::*;
use crate::cell::{lemma_cell_fields_bounded, lemma_mask_noop, CellFields, FluidMat, GranularMat, SurfaceMat, TerrainMat, WorldCell};
use crate::geom::IVec2;
use crate::grid::{GridModel, GridReadView};
use crate::rng::random_ratio;
use crate::sim::common::{count_ring, interior, lemma_count_ring_bounds, offset, ring_offset, ring_offset_exec, sat_add_u16, shifted, GridEvent};
use rand::rngs::SmallRng;

verus! {

/// A mature plant (foliage of age two or more) next to a cell can seed it.
pub open spec fn seeding_plant(c: WorldCell) -> bool {
    c@.surface_mat == 2 && c@.surface_state >= 2
}

/// Dirt terrain, dirt or mud can hold plants.
pub open spec fn fertile_ground(old: WorldCell) -> bool {
    old@.terrain_mat == 2 || old@.granular_mat == 1 || old@.granular_mat == 3
}

/// Whether the rule leaves a cell alone: under fluid, under an inorganic surface, or bare and infertile.
pub open spec fn biology_skips(old: WorldCell) -> bool {
    ||| old@.fluid_mat != 0
    ||| (old@.surface_mat != 0 && old@.surface_mat != 2)
    ||| (!fertile_ground(old) && old@.surface_mat == 0)
}

/// Whether the rule draws its one-in-a-thousand chance of spontaneous sprouting:
/// a bare fertile cell with no mature plant around it.
pub open spec fn biology_draws(old: WorldCell, view: GridModel, pos: IVec2) -> bool {
    !biology_skips(old) && old@.surface_mat == 0 && count_ring(view, pos, |c: WorldCell| seeding_plant(c), 9) == 0
}

/// The fields after one biology step from `c0`; `roll` is the spontaneous sprouting chance,
/// which matters only when `biology_draws` holds.
pub open spec fn biology_step(c0: CellFields, old: WorldCell, view: GridModel, pos: IVec2, roll: bool) -> CellFields {
    if biology_skips(old) {
        c0
    } else if old@.surface_mat == 0 {
        if count_ring(view, pos, |c: WorldCell| seeding_plant(c), 9) > 0 || roll {
            c0.with_surface_mat(2).with_surface_state(0)
        } else {
            c0
        }
    } else if old@.surface_state < 10 {
        c0.with_surface_state((old@.surface_state + 1) as u64)
    } else {
        let c1 = c0.with_surface_mat(0).with_surface_state(0);
        if old@.granular_vol < WorldCell::MAX_GRANULAR_VOL && (old@.granular_mat == 0 || old@.granular_mat == 1) {
            c1.with_granular_mat(1).with_granular_vol((sat_add_u16(old@.granular_vol as int, 1) as u64) & 0x1FF)
        } else {
            c1
        }
    }
}

/// Counts the mature plants among the eight neighbours of `world_pos`.
fn count_seeding_neighbors(view: GridReadView, world_pos: IVec2) -> (r: u32)
    requires
        view@.wf(),
        interior(world_pos, 1),
    ensures
        r == count_ring(view@, world_pos, |c: WorldCell| seeding_plant(c), 9),
{
    let mut fertile_neighbors: u32 = 0;
    let mut k: u32 = 0;
    while k < 9
        invariant
            view@.wf(),
            interior(world_pos, 1),
            k <= 9,
            fertile_neighbors == count_ring(view@, world_pos, |c: WorldCell| seeding_plant(c), k as int),
        decreases 9 - k,
    {
        proof {
            lemma_count_ring_bounds(view@, world_pos, |c: WorldCell| seeding_plant(c), k as int);
        }
        if k != 4 {
            let n_pos = offset(world_pos, ring_offset_exec(k));
            if let Some((_, n_cell)) = view.get_cell(n_pos) {
                if n_cell.surface_mat().0 == SurfaceMat::SURFACE_FOLIAGE && n_cell.surface_state() >= 2 {
                    fertile_neighbors = fertile_neighbors + 1;
                }
            }
        }
        k = k + 1;
    }
    fertile_neighbors
}

fn skips(old_cell: &WorldCell) -> (r: bool)
    ensures
        r == biology_skips(*old_cell),
{
    if old_cell.fluid_mat().0 != FluidMat::EMPTY {
        return true;
    }
    let surface = old_cell.surface_mat();
    if surface.0 != SurfaceMat::EMPTY && surface.0 != SurfaceMat::SURFACE_FOLIAGE {
        return true;
    }
    let is_fertile_ground = old_cell.terrain_mat().0 == TerrainMat::TERRAIN_DIRT || old_cell.granular_mat().0
        == GranularMat::GRANULAR_DIRT || old_cell.granular_mat().0 == GranularMat::GRANULAR_MUD;
    !is_fertile_ground && surface.0 == SurfaceMat::EMPTY
}

/// One biology step with the sprouting chance already decided: bare fertile ground sprouts
/// next to a mature plant (or when `roll` holds), plants age up to ten, then die and leave
/// one unit of dirt when there is room for it.
pub fn apply_biology(cell: &mut WorldCell, old_cell: &WorldCell, view: GridReadView, world_pos: IVec2, roll: bool)
    requires
        view@.wf(),
        interior(world_pos, 1),
    ensures
        final(cell)@ == biology_step(old(cell)@, *old_cell, view@, world_pos, roll),
{
    if skips(old_cell) {
        return;
    }
    let fertile_neighbors = count_seeding_neighbors(view, world_pos);
    apply_biology_counted(cell, old_cell, view, world_pos, fertile_neighbors, roll);
}

fn apply_biology_counted(
    cell: &mut WorldCell,
    old_cell: &WorldCell,
    view: GridReadView,
    world_pos: IVec2,
    fertile_neighbors: u32,
    roll: bool,
)
    requires
        !biology_skips(*old_cell),
        fertile_neighbors == count_ring(view@, world_pos, |c: WorldCell| seeding_plant(c), 9),
    ensures
        final(cell)@ == biology_step(old(cell)@, *old_cell, view@, world_pos, roll),
{
    proof {
        lemma_cell_fields_bounded(*old_cell);
        lemma_mask_noop(0);
        lemma_mask_noop(1);
        lemma_mask_noop(2);
        lemma_mask_noop((old_cell@.surface_state + 1) as u64);
    }
    let surface = old_cell.surface_mat();
    if surface.0 == SurfaceMat::EMPTY {
        if fertile_neighbors > 0 || roll {
            cell.set_surface_mat(SurfaceMat(SurfaceMat::SURFACE_FOLIAGE));
            cell.set_surface_state(0);
        }
    } else {
        let state = old_cell.surface_state();
        if state < 10 {
            cell.set_surface_state(state + 1);
        } else {
            cell.set_surface_mat(SurfaceMat(SurfaceMat::EMPTY));
            cell.set_surface_state(0);
            if old_cell.granular_vol() < WorldCell::MAX_GRANULAR_VOL {
                if old_cell.granular_mat().0 == GranularMat::EMPTY || old_cell.granular_mat().0
                    == GranularMat::GRANULAR_DIRT {
                    cell.set_granular_mat(GranularMat(GranularMat::GRANULAR_DIRT));
                    cell.set_granular_vol(old_cell.granular_vol().saturating_add(1));
                }
            }
        }
    }
}

/// One biology step: as `apply_biology`, with the one-in-a-thousand sprouting chance drawn
/// from `rng` exactly when the rule needs it.
pub fn step_biology(
    cell: &mut WorldCell,
    old_cell: &WorldCell,
    view: GridReadView,
    world_pos: IVec2,
    rng: &mut SmallRng,
    local_events: &mut Vec<GridEvent>,
)
    requires
        view@.wf(),
        interior(world_pos, 1),
    ensures
        exists|roll: bool| final(cell)@ == #[trigger] biology_step(old(cell)@, *old_cell, view@, world_pos, roll),
        !biology_draws(*old_cell, view@, world_pos) ==> final(cell)@ == biology_step(
            old(cell)@,
            *old_cell,
            view@,
            world_pos,
            false,
        ),
        !biology_draws(*old_cell, view@, world_pos) ==> *final(rng) == *old(rng),
        final(local_events)@ == old(local_events)@,
{
    if skips(old_cell) {
        assert(old(cell)@ == biology_step(old(cell)@, *old_cell, view@, world_pos, false));
        return;
    }
    let fertile_neighbors = count_seeding_neighbors(view, world_pos);
    let roll = if old_cell.surface_mat().0 == SurfaceMat::EMPTY && fertile_neighbors == 0 {
        random_ratio(rng, 1, 1000)
    } else {
        false
    };
    apply_biology_counted(cell, old_cell, view, world_pos, fertile_neighbors, roll);
}

} // verus!
