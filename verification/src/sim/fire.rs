use vstd::prelude::*;
use crate::cell::{lemma_cell_fields_bounded, lemma_mask_noop, CellFields, FluidMat, SurfaceMat, WorldCell};
use crate::geom::IVec2;
use crate::grid::{GridModel, GridReadView};
use crate::materials::{combustible, is_combustible};
use crate::rng::random_ratio;
use crate::sim::common::{count_ring, interior, lemma_count_ring_bounds, offset, ring_offset, ring_offset_exec, shifted, GridEvent};
use rand::rngs::SmallRng;

verus! {

pub open spec fn burning(c: WorldCell) -> bool {
    c@.surface_mat == 1
}

/// Number of burning cells among the eight neighbours of `pos`.
pub open spec fn fire_neighbors(view: GridModel, pos: IVec2) -> int {
    count_ring(view, pos, |c: WorldCell| burning(c), 9)
}

/// A fluid other than oil puts fire out.
pub open spec fn quenched(old: WorldCell) -> bool {
    old@.fluid_mat != 0 && old@.fluid_mat != 5
}

/// Whether the rule draws a chance: a combustible surface next to fire (odds of
/// burning neighbours in fifteen), or a fire at the end of its life (even odds of ash).
pub open spec fn fire_draws(old: WorldCell, view: GridModel, pos: IVec2) -> bool {
    !quenched(old) && ((combustible(old@.surface_mat as u8) && fire_neighbors(view, pos) > 0) || (!combustible(
        old@.surface_mat as u8,
    ) && old@.surface_mat == 1 && old@.surface_state >= 20))
}

/// The fields after one fire step from `c0`; `roll` is the drawn chance, which matters only
/// when `fire_draws` holds.
pub open spec fn fire_step(c0: CellFields, old: WorldCell, view: GridModel, pos: IVec2, roll: bool) -> CellFields {
    if quenched(old) {
        if old@.surface_mat == 1 {
            c0.with_surface_mat(0).with_surface_state(0)
        } else {
            c0
        }
    } else if combustible(old@.surface_mat as u8) {
        if fire_neighbors(view, pos) > 0 && roll {
            c0.with_surface_mat(1).with_surface_state(0)
        } else {
            c0
        }
    } else if old@.surface_mat == 1 {
        if old@.surface_state < 20 {
            c0.with_surface_state((old@.surface_state + 1) as u64)
        } else if roll {
            c0.with_surface_mat(7).with_surface_state(0)
        } else {
            c0.with_surface_mat(0).with_surface_state(0)
        }
    } else {
        c0
    }
}

/// The window holds a burning cell at `q`.
pub open spec fn fire_at(view: GridModel, q: IVec2) -> bool {
    match view.cell_at(q) {
        Some(nc) => nc@.surface_mat == 1,
        None => false,
    }
}

proof fn lemma_fire_neighbours_count(view: GridModel, pos: IVec2, n: int)
    requires
        0 <= n <= 9,
    ensures
        count_ring(view, pos, |c: WorldCell| burning(c), n) > 0 <==> exists|k: int|
            0 <= k < n && k != 4 && #[trigger] fire_at(view, shifted(pos, ring_offset(k))),
    decreases n,
{
    if n > 0 {
        lemma_fire_neighbours_count(view, pos, n - 1);
        lemma_count_ring_bounds(view, pos, |c: WorldCell| burning(c), n - 1);
        if count_ring(view, pos, |c: WorldCell| burning(c), n) > 0 && count_ring(view, pos, |c: WorldCell| burning(c), n - 1)
            == 0 {
            assert(fire_at(view, shifted(pos, ring_offset(n - 1))));
        }
    }
}

/// Fire spreads to what burns around it and nowhere else: a foliage, wood, flesh or rot
/// surface with no fluid on it but oil catches fire (a fresh fire of age zero) when one of its
/// eight neighbours burns and its chance comes up; with no burning neighbour it stays as it is.
pub proof fn law_fire_spreads_to_neighbours(old: WorldCell, view: GridModel, pos: IVec2, roll: bool)
    requires
        old@.fluid_mat == 0 || old@.fluid_mat == 5,
        old@.surface_mat == 2 || old@.surface_mat == 3 || old@.surface_mat == 4 || old@.surface_mat == 6,
    ensures
        (exists|k: int|
            0 <= k < 9 && k != 4 && #[trigger] fire_at(view, shifted(pos, ring_offset(k)))) && roll ==> fire_step(old@, old, view, pos, roll) == old@.with_surface_mat(
            1,
        ).with_surface_state(0),
        !(exists|k: int|
            0 <= k < 9 && k != 4 && #[trigger] fire_at(view, shifted(pos, ring_offset(k)))) ==> fire_step(old@, old, view, pos, roll) == old@,
{
    lemma_fire_neighbours_count(view, pos, 9);
}

fn count_fire_neighbors(view: GridReadView, world_pos: IVec2) -> (r: u32)
    requires
        view@.wf(),
        interior(world_pos, 1),
    ensures
        r == fire_neighbors(view@, world_pos),
        r <= 8,
{
    let mut n: u32 = 0;
    let mut k: u32 = 0;
    while k < 9
        invariant
            view@.wf(),
            interior(world_pos, 1),
            k <= 9,
            n == count_ring(view@, world_pos, |c: WorldCell| burning(c), k as int),
        decreases 9 - k,
    {
        proof {
            lemma_count_ring_bounds(view@, world_pos, |c: WorldCell| burning(c), k as int);
        }
        if k != 4 {
            let n_pos = offset(world_pos, ring_offset_exec(k));
            if let Some((_, n_cell)) = view.get_cell(n_pos) {
                if n_cell.surface_mat().0 == SurfaceMat::SURFACE_FIRE {
                    n = n + 1;
                }
            }
        }
        k = k + 1;
    }
    proof {
        lemma_count_ring_bounds(view@, world_pos, |c: WorldCell| burning(c), 9);
    }
    n
}

fn quenched_exec(old_cell: &WorldCell) -> (r: bool)
    ensures
        r == quenched(*old_cell),
{
    let fluid = old_cell.fluid_mat();
    fluid.0 != FluidMat::EMPTY && fluid.0 != FluidMat::FLUID_OIL
}

fn apply_fire_counted(cell: &mut WorldCell, old_cell: &WorldCell, view: GridReadView, world_pos: IVec2, n: u32, roll: bool)
    requires
        n == fire_neighbors(view@, world_pos),
    ensures
        final(cell)@ == fire_step(old(cell)@, *old_cell, view@, world_pos, roll),
{
    proof {
        lemma_cell_fields_bounded(*old_cell);
        lemma_mask_noop(0);
        lemma_mask_noop(1);
        lemma_mask_noop(7);
        lemma_mask_noop((old_cell@.surface_state + 1) as u64);
    }
    let surface = old_cell.surface_mat();
    if quenched_exec(old_cell) {
        if surface.0 == SurfaceMat::SURFACE_FIRE {
            cell.set_surface_mat(SurfaceMat(SurfaceMat::EMPTY));
            cell.set_surface_state(0);
        }
        return;
    }
    if is_combustible(surface) {
        if n > 0 && roll {
            cell.set_surface_mat(SurfaceMat(SurfaceMat::SURFACE_FIRE));
            cell.set_surface_state(0);
        }
    } else if surface.0 == SurfaceMat::SURFACE_FIRE {
        let state = old_cell.surface_state();
        if state < 20 {
            cell.set_surface_state(state.saturating_add(1));
        } else {
            if roll {
                cell.set_surface_mat(SurfaceMat(SurfaceMat::SURFACE_ASH));
            } else {
                cell.set_surface_mat(SurfaceMat(SurfaceMat::EMPTY));
            }
            cell.set_surface_state(0);
        }
    }
}

/// One fire step with the chance already decided: fluid other than oil puts fire out,
/// a combustible surface catches fire next to fire when `roll` holds, and a fire ages to
/// twenty, then leaves ash when `roll` holds or nothing otherwise.
pub fn apply_fire(cell: &mut WorldCell, old_cell: &WorldCell, view: GridReadView, world_pos: IVec2, roll: bool)
    requires
        view@.wf(),
        interior(world_pos, 1),
    ensures
        final(cell)@ == fire_step(old(cell)@, *old_cell, view@, world_pos, roll),
{
    let n = count_fire_neighbors(view, world_pos);
    apply_fire_counted(cell, old_cell, view, world_pos, n, roll);
}

/// One fire step: as `apply_fire`, with the chance drawn from `rng` exactly when the rule needs it.
pub fn step_fire(
    cell: &mut WorldCell,
    old_cell: &WorldCell,
    view: GridReadView,
    world_pos: IVec2,
    rng: &mut SmallRng,
    local_events: &mut Vec<GridEvent>,
)
    requires
        view@.wf(),
        interior(world_pos, 1),
    ensures
        exists|roll: bool| final(cell)@ == #[trigger] fire_step(old(cell)@, *old_cell, view@, world_pos, roll),
        !fire_draws(*old_cell, view@, world_pos) ==> final(cell)@ == fire_step(old(cell)@, *old_cell, view@, world_pos, false),
        !fire_draws(*old_cell, view@, world_pos) ==> *final(rng) == *old(rng),
        final(local_events)@ == old(local_events)@,
{
    let n = count_fire_neighbors(view, world_pos);
    let surface = old_cell.surface_mat();
    proof {
        lemma_cell_fields_bounded(*old_cell);
    }
    let roll = if quenched_exec(old_cell) {
        false
    } else if is_combustible(surface) {
        if n > 0 {
            random_ratio(rng, n, 15)
        } else {
            false
        }
    } else if surface.0 == SurfaceMat::SURFACE_FIRE && old_cell.surface_state() >= 20 {
        random_ratio(rng, 1, 2)
    } else {
        false
    };
    apply_fire_counted(cell, old_cell, view, world_pos, n, roll);
}

} // verus!
