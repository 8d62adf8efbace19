//! Terrain creep: loose solid terrain (sandstone, ice) slides one elevation step at a time
//! down any slope steeper than its angle of repose.
use vstd::prelude::*;
use crate::cell::{lemma_cell_fields_bounded, CellFields, WorldCell};
use crate::dirs::{all_unit, deterministic_dirs, lemma_deterministic_dirs_unit, unit_offset, FlowPattern, ShuffledDirs};
use crate::geom::IVec2;
use crate::grid::{GridModel, GridReadView};
use crate::materials::{creep_repose, get_angle_of_repose};
use crate::sim::common::{interior, offset, sat_add_u16, sat_sub, shifted, with_index};
use crate::sim::liquid::near;

verus! {

/// The order in which the cell at `pos` with terrain material `m` looks at its neighbours.
pub open spec fn creep_dirs(pos: IVec2, tick: u32, m: u8) -> Seq<IVec2> {
    deterministic_dirs(FlowPattern::Omni, pos, tick, m, 0)
}

/// Scan of the first `n` directions for the lowest neighbour that lies more than the angle of
/// repose below `src`; the second component is the lowest elevation seen so far (the source's
/// own elevation until a neighbour qualifies). Ties keep the earlier direction.
pub open spec fn creep_dest_scan(view: GridModel, pos: IVec2, src: WorldCell, dirs: Seq<IVec2>, n: int) -> (
    Option<IVec2>,
    int,
)
    decreases n,
{
    if n <= 0 {
        (None, src@.elevation as int)
    } else {
        let prev = creep_dest_scan(view, pos, src, dirs, n - 1);
        let q = shifted(pos, dirs[n - 1]);
        match view.cell_at(q) {
            Some(nc) => if sat_sub(src@.elevation as int, nc@.elevation as int) > creep_repose(
                src@.terrain_mat as u8,
            ) && nc@.elevation < prev.1 {
                (Some(q), nc@.elevation as int)
            } else {
                prev
            },
            None => prev,
        }
    }
}

/// Where the terrain at `pos` slides to, if anywhere: nowhere for terrain that does not creep
/// or that has no elevation left.
pub open spec fn creep_dest(view: GridModel, pos: IVec2, tick: u32) -> Option<IVec2> {
    match view.cell_at(pos) {
        None => None,
        Some(src) => if creep_repose(src@.terrain_mat as u8) == u16::MAX || src@.elevation == 0 {
            None
        } else {
            let dirs = creep_dirs(pos, tick, src@.terrain_mat as u8);
            creep_dest_scan(view, pos, src, dirs, dirs.len() as int).0
        },
    }
}

/// Scan of the first `n` directions for the highest creeping neighbour whose destination is `pos`.
pub open spec fn creep_source_scan(view: GridModel, pos: IVec2, tick: u32, dirs: Seq<IVec2>, n: int) -> (
    Option<IVec2>,
    int,
)
    decreases n,
{
    if n <= 0 {
        (None, 0)
    } else {
        let prev = creep_source_scan(view, pos, tick, dirs, n - 1);
        let q = shifted(pos, dirs[n - 1]);
        match view.cell_at(q) {
            Some(nc) => if creep_repose(nc@.terrain_mat as u8) != u16::MAX && creep_dest(view, q, tick) == Some(
                pos,
            ) && nc@.elevation > prev.1 {
                (Some(q), nc@.elevation as int)
            } else {
                prev
            },
            None => prev,
        }
    }
}

/// Which neighbour's terrain slides onto `pos`: the highest of those whose destination is `pos`.
pub open spec fn creep_source(view: GridModel, pos: IVec2, tick: u32) -> Option<IVec2> {
    let dirs = creep_dirs(pos, tick, 0);
    creep_source_scan(view, pos, tick, dirs, dirs.len() as int).0
}

/// Whether the cell `old` at `pos` gives one step of elevation away: it creeps, and it is the
/// chosen source of its own destination.
pub open spec fn creep_giving(old: WorldCell, view: GridModel, pos: IVec2, tick: u32) -> bool {
    &&& creep_repose(old@.terrain_mat as u8) != u16::MAX
    &&& match creep_dest(view, pos, tick) {
        Some(dp) => creep_source(view, dp, tick) == Some(pos),
        None => false,
    }
}

/// The fields of a cell after one creep step, starting from `c0`: one step of elevation in
/// from its source (taking on the source's terrain), one step out to its destination.
pub open spec fn creep_step(c0: CellFields, old: WorldCell, view: GridModel, pos: IVec2, tick: u32) -> CellFields {
    let src = creep_source(view, pos, tick);
    let receiving = src is Some;
    let giving = creep_giving(old, view, pos, tick);
    let e1 = if receiving {
        sat_add_u16(old@.elevation as int, 1)
    } else {
        old@.elevation as int
    };
    let e2 = if giving {
        sat_sub(e1, 1)
    } else {
        e1
    };
    let c1 = if receiving {
        c0.with_terrain_mat(view.cell_at(src.unwrap()).unwrap()@.terrain_mat & 0xF)
    } else {
        c0
    };
    if receiving || giving {
        c1.with_elevation((e2 as u64) & 0xFFF)
    } else {
        c1
    }
}

proof fn lemma_creep_dest_scan(view: GridModel, pos: IVec2, src: WorldCell, dirs: Seq<IVec2>, n: int)
    requires
        all_unit(dirs),
        0 <= n <= dirs.len(),
        interior(pos, 1),
    ensures
        creep_dest_scan(view, pos, src, dirs, n).1 <= src@.elevation,
        creep_dest_scan(view, pos, src, dirs, n).0 matches Some(q) ==> {
            &&& view.in_window(q)
            &&& near(pos, q)
            &&& view.cell_at(q).unwrap()@.elevation == creep_dest_scan(view, pos, src, dirs, n).1
            &&& src@.elevation - view.cell_at(q).unwrap()@.elevation > creep_repose(src@.terrain_mat as u8)
        },
    decreases n,
{
    if n > 0 {
        lemma_creep_dest_scan(view, pos, src, dirs, n - 1);
        assert(unit_offset(dirs[n - 1]));
    }
}

proof fn lemma_creep_source_scan(view: GridModel, pos: IVec2, tick: u32, dirs: Seq<IVec2>, n: int)
    requires
        all_unit(dirs),
        0 <= n <= dirs.len(),
        interior(pos, 1),
    ensures
        creep_source_scan(view, pos, tick, dirs, n).0 matches Some(q) ==> {
            &&& view.in_window(q)
            &&& near(pos, q)
            &&& creep_dest(view, q, tick) == Some(pos)
        },
    decreases n,
{
    if n > 0 {
        lemma_creep_source_scan(view, pos, tick, dirs, n - 1);
        assert(unit_offset(dirs[n - 1]));
    }
}

/// Terrain only creeps to a neighbouring cell of the window that lies more than its angle of
/// repose below it, and a cell's creep source is a neighbour whose destination is that cell.
pub proof fn law_creep_downhill(view: GridModel, pos: IVec2, tick: u32)
    requires
        interior(pos, 1),
    ensures
        creep_dest(view, pos, tick) matches Some(q) ==> {
            &&& view.in_window(pos)
            &&& view.in_window(q)
            &&& near(pos, q)
            &&& view.cell_at(pos).unwrap()@.elevation - view.cell_at(q).unwrap()@.elevation > creep_repose(
                view.cell_at(pos).unwrap()@.terrain_mat as u8,
            )
        },
        creep_source(view, pos, tick) matches Some(q) ==> {
            &&& view.in_window(q)
            &&& near(pos, q)
            &&& creep_dest(view, q, tick) == Some(pos)
        },
{
    if let Some(c) = view.cell_at(pos) {
        lemma_cell_fields_bounded(c);
        lemma_deterministic_dirs_unit(FlowPattern::Omni, pos, tick, c@.terrain_mat as u8, 0, 0);
        let dirs = creep_dirs(pos, tick, c@.terrain_mat as u8);
        lemma_creep_dest_scan(view, pos, c, dirs, dirs.len() as int);
    }
    lemma_deterministic_dirs_unit(FlowPattern::Omni, pos, tick, 0, 0, 0);
    let sdirs = creep_dirs(pos, tick, 0);
    lemma_creep_source_scan(view, pos, tick, sdirs, sdirs.len() as int);
}

/// Elevation is handed over, never made or lost between two cells: a cell that gives a step
/// away has a destination whose chosen source is that cell, so the destination takes it in.
pub proof fn law_creep_exchange(view: GridModel, pos: IVec2, tick: u32)
    requires
        view.cell_at(pos) is Some,
        creep_giving(view.cell_at(pos).unwrap(), view, pos, tick),
    ensures
        creep_dest(view, pos, tick) is Some,
        creep_source(view, creep_dest(view, pos, tick).unwrap(), tick) == Some(pos),
{
}

/// The lowest neighbour more than the angle of repose below the terrain at `world_pos`, with
/// its buffer slot.
fn get_granular_dest(world_pos: IVec2, view: GridReadView, tick: u32) -> (r: Option<(usize, IVec2)>)
    requires
        view@.wf(),
        interior(world_pos, 1),
    ensures
        r == with_index(view@, creep_dest(view@, world_pos, tick)),
{
    let (_, s_cell) = match view.get_cell(world_pos) {
        Some(found) => found,
        None => return None,
    };
    let s_mat = s_cell.terrain_mat();
    let repose = get_angle_of_repose(s_mat);
    if repose == u16::MAX || s_cell.elevation() == 0 {
        return None;
    }
    proof {
        lemma_cell_fields_bounded(*s_cell);
        lemma_deterministic_dirs_unit(FlowPattern::Omni, world_pos, tick, s_mat.0, 0, 0);
    }
    let shuffled = ShuffledDirs::new_deterministic(FlowPattern::Omni, world_pos, tick, s_mat.0, 0);
    let dirs = shuffled.get();
    let ghost ds = dirs@;
    let mut best_dest: Option<(usize, IVec2)> = None;
    let mut best_elev: u16 = s_cell.elevation();
    let mut k: usize = 0;
    while k < dirs.len()
        invariant
            view@.wf(),
            interior(world_pos, 1),
            k <= dirs@.len(),
            ds == dirs@,
            ds == creep_dirs(world_pos, tick, s_cell@.terrain_mat as u8),
            all_unit(ds),
            view@.cell_at(world_pos) == Some(*s_cell),
            s_mat.0 == s_cell@.terrain_mat,
            repose == creep_repose(s_mat.0),
            best_dest == with_index(view@, creep_dest_scan(view@, world_pos, *s_cell, ds, k as int).0),
            best_elev == creep_dest_scan(view@, world_pos, *s_cell, ds, k as int).1,
        decreases dirs@.len() - k,
    {
        let dir = dirs[k];
        assert(unit_offset(ds[k as int]));
        let n_pos = offset(world_pos, dir);
        if let Some((n_idx, n_cell)) = view.get_cell(n_pos) {
            if s_cell.elevation().saturating_sub(n_cell.elevation()) > repose {
                if n_cell.elevation() < best_elev {
                    best_elev = n_cell.elevation();
                    best_dest = Some((n_idx, n_pos));
                }
            }
        }
        k = k + 1;
    }
    best_dest
}

/// The highest creeping neighbour whose terrain slides onto `world_pos`, with its buffer slot.
fn get_granular_source(world_pos: IVec2, view: GridReadView, tick: u32) -> (r: Option<(usize, IVec2)>)
    requires
        view@.wf(),
        interior(world_pos, 2),
    ensures
        r == with_index(view@, creep_source(view@, world_pos, tick)),
{
    let shuffled = ShuffledDirs::new_deterministic(FlowPattern::Omni, world_pos, tick, 0, 0);
    proof {
        lemma_deterministic_dirs_unit(FlowPattern::Omni, world_pos, tick, 0, 0, 0);
    }
    let dirs = shuffled.get();
    let ghost ds = dirs@;
    let mut best_source: Option<(usize, IVec2)> = None;
    let mut best_elev: u16 = 0;
    let mut k: usize = 0;
    while k < dirs.len()
        invariant
            view@.wf(),
            interior(world_pos, 2),
            k <= dirs@.len(),
            ds == dirs@,
            ds == creep_dirs(world_pos, tick, 0),
            all_unit(ds),
            best_source == with_index(view@, creep_source_scan(view@, world_pos, tick, ds, k as int).0),
            best_elev == creep_source_scan(view@, world_pos, tick, ds, k as int).1,
        decreases dirs@.len() - k,
    {
        let dir = dirs[k];
        assert(unit_offset(ds[k as int]));
        let s_pos = offset(world_pos, dir);
        assert(interior(s_pos, 1));
        if let Some((s_idx, s_cell)) = view.get_cell(s_pos) {
            proof {
                lemma_cell_fields_bounded(*s_cell);
            }
            if get_angle_of_repose(s_cell.terrain_mat()) != u16::MAX {
                if let Some((_, dest_pos)) = get_granular_dest(s_pos, view, tick) {
                    if dest_pos == world_pos {
                        if s_cell.elevation() > best_elev {
                            best_elev = s_cell.elevation();
                            best_source = Some((s_idx, s_pos));
                        }
                    }
                }
            }
        }
        k = k + 1;
    }
    best_source
}

/// One creep step for the cell at `world_pos`: it takes one step of elevation (and the terrain
/// material) from the neighbour that slides onto it, and gives one step to the neighbour it
/// slides onto when it is that neighbour's choice.
pub fn step_granular(cell: &mut WorldCell, old_cell: &WorldCell, view: GridReadView, world_pos: IVec2, tick: u32)
    requires
        view@.wf(),
        interior(world_pos, 3),
    ensures
        final(cell)@ == creep_step(old(cell)@, *old_cell, view@, world_pos, tick),
{
    proof {
        lemma_cell_fields_bounded(*old_cell);
        law_creep_downhill(view@, world_pos, tick);
    }
    let mut old_elev = old_cell.elevation();
    let mut incoming_mat = None;
    let mut is_receiving = false;
    let mut is_giving = false;

    if let Some((s_idx, s_pos)) = get_granular_source(world_pos, view, tick) {
        proof {
            view@.lemma_slot_in_buffer(s_pos);
        }
        let s_cell = &view.cells[s_idx];
        incoming_mat = Some(s_cell.terrain_mat());
        is_receiving = true;
    }
    if get_angle_of_repose(old_cell.terrain_mat()) != u16::MAX {
        if let Some((_, dest_pos)) = get_granular_dest(world_pos, view, tick) {
            proof {
                law_creep_downhill(view@, world_pos, tick);
            }
            if let Some((_, winner_pos)) = get_granular_source(dest_pos, view, tick) {
                if winner_pos == world_pos {
                    is_giving = true;
                }
            }
        }
    }
    if is_receiving {
        old_elev = old_elev.saturating_add(1);
        if let Some(mat) = incoming_mat {
            cell.set_terrain_mat(mat);
        }
    }
    if is_giving {
        old_elev = old_elev.saturating_sub(1);
    }
    if is_receiving || is_giving {
        cell.set_elevation(old_elev);
    }
}


/// One creep step raises a cell by one when it receives, lowers it by one when it gives.
pub proof fn lemma_creep_step_elevation(view: GridModel, pos: IVec2, tick: u32)
    requires
        view.cell_at(pos) is Some,
        interior(pos, 1),
        forall|q: IVec2| #[trigger] view.in_window(q) ==> interior(q, 1),
    ensures
        ({
            let old = view.cell_at(pos).unwrap();
            creep_step(old@, old, view, pos, tick).elevation == old@.elevation + (if creep_source(view, pos, tick) is Some {
                1int
            } else {
                0
            }) - (if creep_giving(old, view, pos, tick) {
                1int
            } else {
                0
            })
        }),
{
    let old = view.cell_at(pos).unwrap();
    lemma_cell_fields_bounded(old);
    law_creep_downhill(view, pos, tick);
    if let Some(s) = creep_source(view, pos, tick) {
        law_creep_downhill(view, s, tick);
        lemma_cell_fields_bounded(view.cell_at(s).unwrap());
    }
    let e = old@.elevation + (if creep_source(view, pos, tick) is Some {
        1int
    } else {
        0
    }) - (if creep_giving(old, view, pos, tick) {
        1int
    } else {
        0
    });
    assert(0 <= e <= 4095);
    crate::cell::lemma_mask_noop(e as u64);
}

/// How much each slot of `view` stands before a creep step.
pub open spec fn elevation_before(view: GridModel) -> spec_fn(int) -> int {
    |i: int| view.cells[i]@.elevation as int
}

/// How much each slot stands after the creep rule steps it from `view`.
pub open spec fn elevation_after(view: GridModel, tick: u32) -> spec_fn(int) -> int {
    |i: int| creep_step(view.cells[i]@, view.cells[i], view, crate::sim::liquid::slot_of(view, i), tick).elevation as int
}

/// One for each slot that gives a step of elevation away.
pub open spec fn elevation_out(view: GridModel, tick: u32) -> spec_fn(int) -> int {
    |i: int| if creep_giving(view.cells[i], view, crate::sim::liquid::slot_of(view, i), tick) {
        1int
    } else {
        0
    }
}

/// One for each slot that takes a step of elevation in.
pub open spec fn elevation_in(view: GridModel, tick: u32) -> spec_fn(int) -> int {
    |i: int| if creep_source(view, crate::sim::liquid::slot_of(view, i), tick) is Some {
        1int
    } else {
        0
    }
}

/// A creep tick neither raises nor lowers the land as a whole: stepping every cell of a window,
/// one cell clear of the ends of the coordinate range, from the previous tick's grid leaves the
/// window's total elevation as it was.
pub proof fn law_creep_conserves_elevation(view: GridModel, tick: u32)
    requires
        view.wf(),
        i32::MIN + 1 <= view.origin.x,
        view.origin.x + view.width + 1 <= i32::MAX,
        i32::MIN + 1 <= view.origin.y,
        view.origin.y + view.height + 1 <= i32::MAX,
    ensures
        crate::sim::balance::sum_upto(elevation_after(view, tick), view.cells.len() as int)
            == crate::sim::balance::sum_upto(elevation_before(view), view.cells.len() as int),
{
    let n = view.cells.len() as int;
    let f = elevation_out(view, tick);
    let g = elevation_in(view, tick);
    let sigma = |i: int| view.index_of(creep_dest(view, crate::sim::liquid::slot_of(view, i), tick).unwrap());
    let tau = |j: int| view.index_of(creep_source(view, crate::sim::liquid::slot_of(view, j), tick).unwrap());
    assert forall|q: IVec2| #[trigger] view.in_window(q) implies interior(q, 1) by {}
    assert forall|i: int| 0 <= i < n implies view.cell_at(#[trigger] crate::sim::liquid::slot_of(view, i)) == Some(
        view.cells[i],
    ) by {
        crate::sim::world::lemma_slot_pos(view, i);
    }
    assert forall|i: int| 0 <= i < n && #[trigger] f(i) != 0 implies 0 <= sigma(i) < n && g(sigma(i)) == f(i) && tau(sigma(i))
        == i by {
        let p = crate::sim::liquid::slot_of(view, i);
        assert(view.cell_at(p) == Some(view.cells[i]));
        law_creep_exchange(view, p, tick);
        law_creep_downhill(view, p, tick);
        let d = creep_dest(view, p, tick).unwrap();
        crate::sim::world::lemma_slot_of_position(view, d);
        assert(crate::sim::liquid::slot_of(view, view.index_of(d)) == d);
        assert(view.index_of(p) == i) by {
            crate::sim::world::lemma_slot_pos(view, i);
        }
    }
    assert forall|j: int| 0 <= j < n && #[trigger] g(j) != 0 implies 0 <= tau(j) < n && f(tau(j)) == g(j) && sigma(tau(j))
        == j by {
        let p = crate::sim::liquid::slot_of(view, j);
        assert(view.cell_at(p) == Some(view.cells[j]));
        law_creep_downhill(view, p, tick);
        let s = creep_source(view, p, tick).unwrap();
        crate::sim::world::lemma_slot_of_position(view, s);
        assert(crate::sim::liquid::slot_of(view, view.index_of(s)) == s);
        assert(view.cell_at(s) == Some(view.cells[view.index_of(s)]));
        assert(view.index_of(p) == j) by {
            crate::sim::world::lemma_slot_pos(view, j);
        }
        lemma_creep_source_gives(view, p, tick);
    }
    crate::sim::balance::lemma_paired_sums(f, g, sigma, tau, n);
    let before = elevation_before(view);
    let after = elevation_after(view, tick);
    assert forall|k: int| 0 <= k < n implies #[trigger] after(k) == (|i: int| before(i) + g(i) - f(i))(k) by {
        let p = crate::sim::liquid::slot_of(view, k);
        assert(view.cell_at(p) == Some(view.cells[k]));
        lemma_creep_step_elevation(view, p, tick);
    }
    crate::sim::balance::lemma_sum_linear(before, g, f, n);
    crate::sim::balance::lemma_sum_unchanged(after, |i: int| before(i) + g(i) - f(i), n);
}

proof fn lemma_source_scan_gives(view: GridModel, pos: IVec2, tick: u32, dirs: Seq<IVec2>, n: int)
    ensures
        creep_source_scan(view, pos, tick, dirs, n).0 matches Some(q) ==> view.cell_at(q) is Some && creep_repose(
            view.cell_at(q).unwrap()@.terrain_mat as u8,
        ) != u16::MAX && creep_dest(view, q, tick) == Some(pos),
    decreases n,
{
    if n > 0 {
        lemma_source_scan_gives(view, pos, tick, dirs, n - 1);
    }
}

/// A cell's chosen creep source gives its step of elevation to that cell.
proof fn lemma_creep_source_gives(view: GridModel, pos: IVec2, tick: u32)
    ensures
        creep_source(view, pos, tick) matches Some(s) ==> view.cell_at(s) is Some && creep_giving(
            view.cell_at(s).unwrap(),
            view,
            s,
            tick,
        ),
{
    let dirs = creep_dirs(pos, tick, 0);
    lemma_source_scan_gives(view, pos, tick, dirs, dirs.len() as int);
}

} // verus!
