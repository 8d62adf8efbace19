use vstd::prelude::*;
use crate::cell::{lemma_cell_fields_bounded, lemma_mask_noop, CellFields, FluidMat, GranularMat, SurfaceMat, TerrainMat, WorldCell};
use crate::dirs::unit_offset;
use crate::geom::IVec2;
use crate::grid::{GridModel, GridReadView};
use crate::rng::random_ratio;
use crate::sim::biology::fertile_ground;
use crate::sim::common::{interior, offset, shifted, GridEvent};
use rand::rngs::SmallRng;

verus! {

/// How far up, in height units, roots can wick water from a neighbour.
pub const MAX_CAPILLARY_LIFT: u32 = 2;

/// The `k`-th edge neighbour offset: north, east, south, west.
pub open spec fn edge_offset(k: int) -> IVec2 {
    if k == 0 {
        IVec2 { x: 0, y: 1 }
    } else if k == 1 {
        IVec2 { x: 1, y: 0 }
    } else if k == 2 {
        IVec2 { x: 0, y: -1i32 }
    } else {
        IVec2 { x: -1i32, y: 0 }
    }
}

/// Height of the crust a plant roots in: elevation plus granular volume.
pub open spec fn crust(c: WorldCell) -> int {
    c@.elevation + c@.granular_vol
}

pub open spec fn abs_diff(a: int, b: int) -> int {
    if a >= b {
        a - b
    } else {
        b - a
    }
}

/// Bare ground or ash, on which a plant may sprout.
pub open spec fn open_ground(old: WorldCell) -> bool {
    old@.surface_mat == 0 || old@.surface_mat == 7
}

/// Among the first `n` edge neighbours, the mature plants on nearly level ground that can seed `old`.
pub open spec fn level_seeders(view: GridModel, pos: IVec2, old: WorldCell, n: int) -> int
    decreases n,
{
    if n <= 0 {
        0
    } else {
        level_seeders(view, pos, old, n - 1) + match view.cell_at(shifted(pos, edge_offset(n - 1))) {
            Some(nc) => if open_ground(old) && nc@.surface_mat == 2 && nc@.surface_state >= 2 && abs_diff(
                crust(old),
                crust(nc),
            ) <= 1 {
                1int
            } else {
                0int
            },
            None => 0int,
        }
    }
}

/// Whether one of the first `n` edge neighbours holds water or blood within capillary reach.
pub open spec fn wet_neighbour(view: GridModel, pos: IVec2, old: WorldCell, n: int) -> bool
    decreases n,
{
    if n <= 0 {
        false
    } else {
        wet_neighbour(view, pos, old, n - 1) || match view.cell_at(shifted(pos, edge_offset(n - 1))) {
            Some(nc) => abs_diff(crust(old), crust(nc)) <= MAX_CAPILLARY_LIFT && (nc@.fluid_mat == 1
                || nc@.fluid_mat == 3),
            None => false,
        }
    }
}

/// Mud or standing water, or water or blood next door within capillary reach.
pub open spec fn hydrated(view: GridModel, pos: IVec2, old: WorldCell) -> bool {
    old@.granular_mat == 3 || old@.fluid_mat == 1 || wet_neighbour(view, pos, old, 4)
}

/// More than fifteen units of any fluid drown a plant.
pub open spec fn drowning(old: WorldCell) -> bool {
    old@.fluid_mat != 0 && old@.fluid_vol > 15
}

/// Whether the rule leaves a cell alone: under an inorganic surface, or bare and infertile.
pub open spec fn hydrated_skips(old: WorldCell) -> bool {
    (old@.surface_mat != 0 && old@.surface_mat != 2 && old@.surface_mat != 7) || (!fertile_ground(old)
        && open_ground(old))
}

/// The fields after one step from `c0`. `first` and `second` are the chances drawn in order:
/// on open ground, sprouting next to a seeder (one in one with ash, one in three without),
/// then spontaneous sprouting (one in 150 with ash, one in 800 without); on a growing plant,
/// growth (one in three), then drying of mud (one in ten).
pub open spec fn hydrated_biology_step(
    c0: CellFields,
    old: WorldCell,
    view: GridModel,
    pos: IVec2,
    first: bool,
    second: bool,
) -> CellFields {
    if hydrated_skips(old) {
        c0
    } else if open_ground(old) {
        if fertile_ground(old) && hydrated(view, pos, old) && !drowning(old) && ((level_seeders(view, pos, old, 4) > 0
            && first) || second) {
            c0.with_surface_mat(2).with_surface_state(1)
        } else {
            c0
        }
    } else if hydrated(view, pos, old) && !drowning(old) && old@.surface_state < 10 {
        let c1 = if first {
            c0.with_surface_state((old@.surface_state + 1) as u64)
        } else {
            c0
        };
        if c1.fluid_mat == 1 || c1.fluid_mat == 3 {
            if c1.fluid_vol > 0 {
                let c2 = c1.with_fluid_vol((c1.fluid_vol - if c1.fluid_vol < 2 { c1.fluid_vol } else { 2 }) as u64);
                if c2.fluid_vol == 0 {
                    c2.with_fluid_mat(0).with_compass(0)
                } else {
                    c2
                }
            } else {
                c1
            }
        } else if c1.granular_mat == 3 && second {
            c1.with_granular_mat(1)
        } else {
            c1
        }
    } else {
        c0
    }
}

/// Open ground on which a plant may sprout this step: fertile, watered and not drowned.
pub open spec fn may_sprout(view: GridModel, pos: IVec2, old: WorldCell) -> bool {
    &&& !hydrated_skips(old)
    &&& open_ground(old)
    &&& fertile_ground(old)
    &&& hydrated(view, pos, old)
    &&& !drowning(old)
}

/// A plant that may grow this step: watered, not drowned and younger than ten.
pub open spec fn may_grow(view: GridModel, pos: IVec2, old: WorldCell) -> bool {
    &&& !hydrated_skips(old)
    &&& !open_ground(old)
    &&& hydrated(view, pos, old)
    &&& !drowning(old)
    &&& old@.surface_state < 10
}

/// Whether the step draws any chance: only where a plant may sprout or grow.
pub open spec fn hydrated_draws(view: GridModel, pos: IVec2, old: WorldCell) -> bool {
    may_sprout(view, pos, old) || may_grow(view, pos, old)
}

/// Scans the four edge neighbours: how many mature plants can seed the cell, and whether
/// water is within reach (starting from `hydrated0`, the cell's own water).
fn scan_edges(view: GridReadView, world_pos: IVec2, old_cell: &WorldCell, hydrated0: bool) -> (r: (u32, bool))
    requires
        view@.wf(),
        interior(world_pos, 1),
    ensures
        r.0 == level_seeders(view@, world_pos, *old_cell, 4),
        r.1 == (hydrated0 || wet_neighbour(view@, world_pos, *old_cell, 4)),
{
    proof {
        lemma_cell_fields_bounded(*old_cell);
    }
    let surface = old_cell.surface_mat();
    let my_crust_height = old_cell.elevation() as u32 + old_cell.granular_vol() as u32;
    let dirs = [IVec2::new(0, 1), IVec2::new(1, 0), IVec2::new(0, -1), IVec2::new(-1, 0)];
    let mut fertile_neighbors: u32 = 0;
    let mut is_hydrated = hydrated0;
    let mut k: usize = 0;
    while k < 4
        invariant
            view@.wf(),
            interior(world_pos, 1),
            k <= 4,
            dirs@ == seq![edge_offset(0), edge_offset(1), edge_offset(2), edge_offset(3)],
            my_crust_height == crust(*old_cell),
            surface.0 == old_cell@.surface_mat,
            fertile_neighbors == level_seeders(view@, world_pos, *old_cell, k as int),
            fertile_neighbors <= k,
            is_hydrated == (hydrated0 || wet_neighbour(view@, world_pos, *old_cell, k as int)),
        decreases 4 - k,
    {
        let dir = dirs[k];
        assert(dir == edge_offset(k as int));
        let n_pos = offset(world_pos, dir);
        if let Some((_, n_cell)) = view.get_cell(n_pos) {
            proof {
                lemma_cell_fields_bounded(*n_cell);
            }
            let n_crust_height = n_cell.elevation() as u32 + n_cell.granular_vol() as u32;
            let vertical_delta = if my_crust_height >= n_crust_height {
                my_crust_height - n_crust_height
            } else {
                n_crust_height - my_crust_height
            };
            if (surface.0 == SurfaceMat::EMPTY || surface.0 == SurfaceMat::SURFACE_ASH) && n_cell.surface_mat().0
                == SurfaceMat::SURFACE_FOLIAGE && n_cell.surface_state() >= 2 && vertical_delta <= 1 {
                fertile_neighbors = fertile_neighbors + 1;
            }
            if !is_hydrated && vertical_delta <= MAX_CAPILLARY_LIFT {
                if n_cell.fluid_mat().0 == FluidMat::FLUID_WATER || n_cell.fluid_mat().0 == FluidMat::FLUID_BLOOD {
                    is_hydrated = true;
                }
            }
        }
        k = k + 1;
    }
    (fertile_neighbors, is_hydrated)
}

fn skips(old_cell: &WorldCell) -> (r: bool)
    ensures
        r == hydrated_skips(*old_cell),
{
    let surface = old_cell.surface_mat();
    if surface.0 != SurfaceMat::EMPTY && surface.0 != SurfaceMat::SURFACE_FOLIAGE && surface.0 != SurfaceMat::SURFACE_ASH {
        return true;
    }
    let is_fertile_ground = old_cell.terrain_mat().0 == TerrainMat::TERRAIN_DIRT || old_cell.granular_mat().0
        == GranularMat::GRANULAR_DIRT || old_cell.granular_mat().0 == GranularMat::GRANULAR_MUD;
    !is_fertile_ground && (surface.0 == SurfaceMat::EMPTY || surface.0 == SurfaceMat::SURFACE_ASH)
}

fn apply_scanned(
    cell: &mut WorldCell,
    old_cell: &WorldCell,
    view: GridReadView,
    world_pos: IVec2,
    seeders: u32,
    is_hydrated: bool,
    first: bool,
    second: bool,
)
    requires
        !hydrated_skips(*old_cell),
        seeders == level_seeders(view@, world_pos, *old_cell, 4),
        is_hydrated == hydrated(view@, world_pos, *old_cell),
    ensures
        final(cell)@ == hydrated_biology_step(old(cell)@, *old_cell, view@, world_pos, first, second),
{
    proof {
        lemma_cell_fields_bounded(*old_cell);
        lemma_cell_fields_bounded(*cell);
        lemma_mask_noop(0);
        lemma_mask_noop(1);
        lemma_mask_noop(2);
        lemma_mask_noop((old_cell@.surface_state + 1) as u64);
    }
    let surface = old_cell.surface_mat();
    let fluid = old_cell.fluid_mat();
    let is_drowning = fluid.0 != FluidMat::EMPTY && old_cell.fluid_vol() > 15;
    let is_fertile_ground = old_cell.terrain_mat().0 == TerrainMat::TERRAIN_DIRT || old_cell.granular_mat().0
        == GranularMat::GRANULAR_DIRT || old_cell.granular_mat().0 == GranularMat::GRANULAR_MUD;
    if surface.0 == SurfaceMat::EMPTY || surface.0 == SurfaceMat::SURFACE_ASH {
        if is_fertile_ground && is_hydrated && !is_drowning {
            if (seeders > 0 && first) || second {
                cell.set_surface_mat(SurfaceMat(SurfaceMat::SURFACE_FOLIAGE));
                cell.set_surface_state(1);
            }
        }
    } else {
        let state = old_cell.surface_state();
        if is_hydrated && !is_drowning && state < 10 {
            if first {
                cell.set_surface_state(state + 1);
            }
            proof {
                lemma_cell_fields_bounded(*cell);
            }
            let current_fluid = cell.fluid_mat();
            if current_fluid.0 == FluidMat::FLUID_WATER || current_fluid.0 == FluidMat::FLUID_BLOOD {
                let vol = cell.fluid_vol();
                if vol > 0 {
                    let consume_amt = if vol < 2 {
                        vol
                    } else {
                        2
                    };
                    proof {
                        lemma_mask_noop((vol - consume_amt) as u64);
                    }
                    cell.set_fluid_vol(vol - consume_amt);
                    if cell.fluid_vol() == 0 {
                        cell.set_fluid_mat(FluidMat(FluidMat::EMPTY));
                        cell.set_compass(0);
                    }
                }
            } else if cell.granular_mat().0 == GranularMat::GRANULAR_MUD {
                if second {
                    cell.set_granular_mat(GranularMat(GranularMat::GRANULAR_DIRT));
                }
            }
        }
    }
}

fn scan(view: GridReadView, world_pos: IVec2, old_cell: &WorldCell) -> (r: (u32, bool))
    requires
        view@.wf(),
        interior(world_pos, 1),
    ensures
        r.0 == level_seeders(view@, world_pos, *old_cell, 4),
        r.1 == hydrated(view@, world_pos, *old_cell),
{
    let hydrated0 = old_cell.granular_mat().0 == GranularMat::GRANULAR_MUD || old_cell.fluid_mat().0
        == FluidMat::FLUID_WATER;
    scan_edges(view, world_pos, old_cell, hydrated0)
}

/// One step with both chances already decided (see `hydrated_biology_step`): plants sprout
/// on fertile, watered, undrowned open ground, grow while watered, drink the water under
/// them and dry out mud.
pub fn apply_biology(
    cell: &mut WorldCell,
    old_cell: &WorldCell,
    view: GridReadView,
    world_pos: IVec2,
    first: bool,
    second: bool,
)
    requires
        view@.wf(),
        interior(world_pos, 1),
    ensures
        final(cell)@ == hydrated_biology_step(old(cell)@, *old_cell, view@, world_pos, first, second),
{
    if skips(old_cell) {
        return;
    }
    let (seeders, is_hydrated) = scan(view, world_pos, old_cell);
    apply_scanned(cell, old_cell, view, world_pos, seeders, is_hydrated, first, second);
}

/// One step: as `apply_biology`, with each chance drawn from `rng` exactly when the rule needs it.
pub fn step_biology(
    cell: &mut WorldCell,
    old_cell: &WorldCell,
    view: GridReadView,
    world_pos: IVec2,
    rng: &mut SmallRng,
    local_events: &mut Vec<GridEvent>,
)
    requires
        view@.wf(),
        interior(world_pos, 1),
    ensures
        exists|first: bool, second: bool|
            final(cell)@ == #[trigger] hydrated_biology_step(old(cell)@, *old_cell, view@, world_pos, first, second),
        !hydrated_draws(view@, world_pos, *old_cell) ==> final(cell)@ == hydrated_biology_step(
            old(cell)@,
            *old_cell,
            view@,
            world_pos,
            false,
            false,
        ) && *final(rng) == *old(rng),
        may_sprout(view@, world_pos, *old_cell) && old_cell@.surface_mat == 7 && level_seeders(view@, world_pos, *old_cell, 4)
            > 0 ==> final(cell)@ == hydrated_biology_step(old(cell)@, *old_cell, view@, world_pos, true, false),
        final(local_events)@ == old(local_events)@,
{
    proof {
        lemma_cell_fields_bounded(*old_cell);
    }
    if skips(old_cell) {
        assert(old(cell)@ == hydrated_biology_step(old(cell)@, *old_cell, view@, world_pos, false, false));
        return;
    }
    let (seeders, is_hydrated) = scan(view, world_pos, old_cell);
    let surface = old_cell.surface_mat();
    let is_drowning = old_cell.fluid_mat().0 != FluidMat::EMPTY && old_cell.fluid_vol() > 15;
    let is_fertile_ground = old_cell.terrain_mat().0 == TerrainMat::TERRAIN_DIRT || old_cell.granular_mat().0
        == GranularMat::GRANULAR_DIRT || old_cell.granular_mat().0 == GranularMat::GRANULAR_MUD;
    let mut first = false;
    let mut second = false;
    if surface.0 == SurfaceMat::EMPTY || surface.0 == SurfaceMat::SURFACE_ASH {
        if is_fertile_ground && is_hydrated && !is_drowning {
            let has_ash = surface.0 == SurfaceMat::SURFACE_ASH;
            let neighbor_chance: u32 = if has_ash {
                1
            } else {
                3
            };
            let spont_chance: u32 = if has_ash {
                150
            } else {
                800
            };
            if seeders > 0 {
                first = random_ratio(rng, 1, neighbor_chance);
            }
            if !(seeders > 0 && first) {
                second = random_ratio(rng, 1, spont_chance);
            }
        }
    } else if is_hydrated && !is_drowning && old_cell.surface_state() < 10 {
        first = random_ratio(rng, 1, 3);
        let current_fluid = cell.fluid_mat();
        if !(current_fluid.0 == FluidMat::FLUID_WATER || current_fluid.0 == FluidMat::FLUID_BLOOD)
            && cell.granular_mat().0 == GranularMat::GRANULAR_MUD {
            second = random_ratio(rng, 1, 10);
        }
    }
    apply_scanned(cell, old_cell, view, world_pos, seeders, is_hydrated, first, second);
}

} // verus!
