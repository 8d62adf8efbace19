use vstd::prelude::*;
use crate::cell::{lemma_cell_fields_bounded, lemma_mask_noop, CellFields, GranularMat, WorldCell};
use crate::dirs::{all_unit, deterministic_dirs, lemma_deterministic_dirs_unit, unit_offset, FlowPattern, ShuffledDirs};
use crate::geom::IVec2;
use crate::grid::{GridModel, GridReadView};
use crate::materials::{get_granular_repose, granular_repose};
use crate::physics::{calc_granular_transfer, floor_height, granular_transfer};
use crate::sim::common::{interior, offset, sat_add_u16, sat_sub, shifted, with_index};
use crate::sim::liquid::near;

verus! {

/// The order in which a cell at `pos` holding granular material `m` looks at its neighbours.
pub open spec fn granular_dirs(pos: IVec2, tick: u32, m: u8) -> Seq<IVec2> {
    deterministic_dirs(FlowPattern::Omni, pos, tick, m, 0)
}

/// Scan of the first `n` directions for the neighbour with the steepest drop below `src`
/// that exceeds the angle of repose and holds no other granular material.
pub open spec fn granular_dest_scan(view: GridModel, pos: IVec2, src: WorldCell, dirs: Seq<IVec2>, n: int) -> (
    Option<IVec2>,
    int,
)
    decreases n,
{
    if n <= 0 {
        (None, 0)
    } else {
        let prev = granular_dest_scan(view, pos, src, dirs, n - 1);
        let q = shifted(pos, dirs[n - 1]);
        match view.cell_at(q) {
            Some(nc) => {
                let diff = floor_height(src) - floor_height(nc);
                if sat_sub(floor_height(src), floor_height(nc)) > granular_repose(src@.granular_mat as u8)
                    && (nc@.granular_mat == 0 || nc@.granular_mat == src@.granular_mat) && diff > prev.1 {
                    (Some(q), diff)
                } else {
                    prev
                }
            },
            None => prev,
        }
    }
}

/// Where the granular column at `pos` slides to, if anywhere.
pub open spec fn granular_dest(view: GridModel, pos: IVec2, tick: u32) -> Option<IVec2> {
    match view.cell_at(pos) {
        None => None,
        Some(src) => if granular_repose(src@.granular_mat as u8) == u16::MAX || src@.granular_vol == 0 {
            None
        } else {
            let dirs = granular_dirs(pos, tick, src@.granular_mat as u8);
            granular_dest_scan(view, pos, src, dirs, dirs.len() as int).0
        },
    }
}

/// What the destination scan keeps: with nothing found, zero; with a neighbour found, the
/// drop from the source's floor to that neighbour's, above the angle of repose.
proof fn lemma_granular_scan_shape(view: GridModel, pos: IVec2, src: WorldCell, dirs: Seq<IVec2>, n: int)
    ensures
        granular_dest_scan(view, pos, src, dirs, n).0 is None ==> granular_dest_scan(view, pos, src, dirs, n).1 == 0,
        granular_dest_scan(view, pos, src, dirs, n).0 matches Some(q) ==> view.cell_at(q) matches Some(dc)
            && floor_height(src) - floor_height(dc) == granular_dest_scan(view, pos, src, dirs, n).1
            && floor_height(src) - floor_height(dc) > granular_repose(src@.granular_mat as u8),
    decreases n,
{
    if n > 0 {
        lemma_granular_scan_shape(view, pos, src, dirs, n - 1);
    }
}

/// A scanned neighbour free of other granular matter whose floor lies further below than the
/// angle of repose makes the scan find a destination with a drop at least as deep.
proof fn lemma_granular_scan_finds(view: GridModel, pos: IVec2, src: WorldCell, dirs: Seq<IVec2>, n: int, k: int, nc: WorldCell)
    requires
        0 <= k < n,
        view.cell_at(shifted(pos, dirs[k])) == Some(nc),
        nc@.granular_mat == 0 || nc@.granular_mat == src@.granular_mat,
        floor_height(src) - floor_height(nc) > granular_repose(src@.granular_mat as u8),
    ensures
        granular_dest_scan(view, pos, src, dirs, n).0 is Some,
        granular_dest_scan(view, pos, src, dirs, n).1 >= floor_height(src) - floor_height(nc),
    decreases n,
{
    lemma_granular_scan_shape(view, pos, src, dirs, n - 1);
    if k < n - 1 {
        lemma_granular_scan_finds(view, pos, src, dirs, n - 1, k, nc);
    }
}

/// A heap slides when it is too steep: when the cell at `pos` holds granular matter that can
/// slide, and a neighbour it looks at holds no granular matter or the same kind with a floor
/// (elevation plus granular volume) lower by more than the angle of repose, the matter has a
/// destination, and the drop to it is at least as deep as the drop to that neighbour.
pub proof fn law_granular_slides_downhill(view: GridModel, pos: IVec2, tick: u32, src: WorldCell, k: int, nc: WorldCell)
    requires
        view.cell_at(pos) == Some(src),
        src@.granular_vol > 0,
        granular_repose(src@.granular_mat as u8) != u16::MAX,
        0 <= k < granular_dirs(pos, tick, src@.granular_mat as u8).len(),
        view.cell_at(shifted(pos, granular_dirs(pos, tick, src@.granular_mat as u8)[k])) == Some(nc),
        nc@.granular_mat == 0 || nc@.granular_mat == src@.granular_mat,
        (src@.elevation + src@.granular_vol) - (nc@.elevation + nc@.granular_vol) > granular_repose(
            src@.granular_mat as u8,
        ),
    ensures
        granular_dest(view, pos, tick) matches Some(q) && view.cell_at(q) matches Some(dc) && (src@.elevation
            + src@.granular_vol) - (dc@.elevation + dc@.granular_vol) >= (src@.elevation + src@.granular_vol) - (
        nc@.elevation + nc@.granular_vol),
{
    let dirs = granular_dirs(pos, tick, src@.granular_mat as u8);
    lemma_granular_scan_finds(view, pos, src, dirs, dirs.len() as int, k, nc);
    lemma_granular_scan_shape(view, pos, src, dirs, dirs.len() as int);
}

/// Scan of the first `n` directions for the steepest neighbour that slides onto `pos`.
pub open spec fn granular_source_scan(view: GridModel, pos: IVec2, dc: WorldCell, tick: u32, dirs: Seq<IVec2>, n: int) -> (
    Option<IVec2>,
    int,
)
    decreases n,
{
    if n <= 0 {
        (None, 0)
    } else {
        let prev = granular_source_scan(view, pos, dc, tick, dirs, n - 1);
        let q = shifted(pos, dirs[n - 1]);
        match view.cell_at(q) {
            Some(nc) => if granular_repose(nc@.granular_mat as u8) != u16::MAX && granular_dest(view, q, tick)
                == Some(pos) && sat_sub(floor_height(nc), floor_height(dc)) > prev.1 {
                (Some(q), sat_sub(floor_height(nc), floor_height(dc)))
            } else {
                prev
            },
            None => prev,
        }
    }
}

/// Which neighbour's granular matter slides onto `pos`: the steepest of those whose destination is `pos`.
pub open spec fn granular_source(view: GridModel, pos: IVec2, tick: u32) -> Option<IVec2> {
    match view.cell_at(pos) {
        None => None,
        Some(dc) => {
            let dirs = granular_dirs(pos, tick, 0);
            granular_source_scan(view, pos, dc, tick, dirs, dirs.len() as int).0
        },
    }
}

/// Granular volume that `old` at `pos` gives away: only to its destination, and only
/// when it is that destination's chosen source.
pub open spec fn granular_outflow(old: WorldCell, view: GridModel, pos: IVec2, tick: u32) -> int {
    if old@.granular_mat != 0 {
        match granular_dest(view, pos, tick) {
            Some(dp) => match granular_source(view, dp, tick) {
                Some(wp) => if wp == pos {
                    match view.cell_at(dp) {
                        Some(dc) => granular_transfer(old, dc, pos.x, pos.y, tick),
                        None => 0,
                    }
                } else {
                    0
                },
                None => 0,
            },
            None => 0,
        }
    } else {
        0
    }
}

/// Granular volume that the cell `old` at `pos` takes in: what its chosen source hands to it.
pub open spec fn granular_inflow(old: WorldCell, view: GridModel, pos: IVec2, tick: u32) -> int {
    match granular_source(view, pos, tick) {
        Some(sp) => granular_transfer(view.cell_at(sp).unwrap(), old, sp.x, sp.y, tick),
        None => 0,
    }
}

/// The fields of a cell after one granular step, starting from `c0`.
pub open spec fn granular_step(c0: CellFields, old: WorldCell, view: GridModel, pos: IVec2, tick: u32) -> CellFields {
    let src = granular_source(view, pos, tick);
    let inc: int = granular_inflow(old, view, pos, tick);
    let out = granular_outflow(old, view, pos, tick);
    if inc == 0 && out == 0 {
        c0
    } else {
        let inc_mat: u64 = match src {
            Some(sp) => view.cell_at(sp).unwrap()@.granular_mat,
            None => 0,
        };
        let c1 = if inc > 0 && old@.granular_mat == 0 {
            c0.with_granular_mat(inc_mat & 0x7)
        } else {
            c0
        };
        let vol = sat_sub(sat_add_u16(old@.granular_vol as int, inc), out);
        let c2 = c1.with_granular_vol((vol as u64) & 0x1FF);
        if c2.granular_vol == 0 {
            c2.with_granular_mat(0)
        } else {
            c2
        }
    }
}

proof fn lemma_dest_scan_found(view: GridModel, pos: IVec2, src: WorldCell, dirs: Seq<IVec2>, n: int)
    requires
        all_unit(dirs),
        0 <= n <= dirs.len(),
        interior(pos, 1),
    ensures
        granular_dest_scan(view, pos, src, dirs, n).0 matches Some(q) ==> view.in_window(q) && near(pos, q),
    decreases n,
{
    if n > 0 {
        lemma_dest_scan_found(view, pos, src, dirs, n - 1);
        assert(unit_offset(dirs[n - 1]));
    }
}

proof fn lemma_source_scan_found(view: GridModel, pos: IVec2, dc: WorldCell, tick: u32, dirs: Seq<IVec2>, n: int)
    requires
        all_unit(dirs),
        0 <= n <= dirs.len(),
        interior(pos, 1),
    ensures
        granular_source_scan(view, pos, dc, tick, dirs, n).0 matches Some(q) ==> view.in_window(q) && near(pos, q),
    decreases n,
{
    if n > 0 {
        lemma_source_scan_found(view, pos, dc, tick, dirs, n - 1);
        assert(unit_offset(dirs[n - 1]));
    }
}

/// The granular destination and source of a cell are cells of the window next to it.
pub proof fn lemma_granular_neighbours(view: GridModel, pos: IVec2, tick: u32)
    requires
        interior(pos, 1),
    ensures
        granular_dest(view, pos, tick) matches Some(q) ==> view.in_window(q) && near(pos, q),
        granular_source(view, pos, tick) matches Some(q) ==> view.in_window(q) && near(pos, q),
        granular_dest(view, pos, tick) is Some ==> view.in_window(pos),
{
    if let Some(c) = view.cell_at(pos) {
        lemma_cell_fields_bounded(c);
        lemma_deterministic_dirs_unit(FlowPattern::Omni, pos, tick, c@.granular_mat as u8, 0, 0);
        lemma_deterministic_dirs_unit(FlowPattern::Omni, pos, tick, 0, 0, 0);
        let dirs = granular_dirs(pos, tick, c@.granular_mat as u8);
        lemma_dest_scan_found(view, pos, c, dirs, dirs.len() as int);
        let sdirs = granular_dirs(pos, tick, 0);
        lemma_source_scan_found(view, pos, c, tick, sdirs, sdirs.len() as int);
    }
}

/// The neighbour onto which the granular column at `world_pos` slides, with its buffer slot.
fn get_preferred_destination(world_pos: IVec2, view: GridReadView, tick: u32) -> (r: Option<(usize, IVec2)>)
    requires
        view@.wf(),
        interior(world_pos, 1),
    ensures
        r == with_index(view@, granular_dest(view@, world_pos, tick)),
{
    let (_, source_cell) = match view.get_cell(world_pos) {
        Some(found) => found,
        None => return None,
    };
    let source_mat = source_cell.granular_mat();
    let repose = get_granular_repose(source_mat);
    if repose == u16::MAX || source_cell.granular_vol() == 0 {
        return None;
    }
    let shuffled = ShuffledDirs::new_deterministic(FlowPattern::Omni, world_pos, tick, source_mat.0, 0);
    proof {
        lemma_cell_fields_bounded(*source_cell);
        lemma_deterministic_dirs_unit(FlowPattern::Omni, world_pos, tick, source_mat.0, 0, 0);
    }
    let source_total = source_cell.elevation() as u32 + source_cell.granular_vol() as u32;
    let dirs = shuffled.get();
    let ghost ds = dirs@;
    let mut best_dest: Option<(usize, IVec2)> = None;
    let mut best_diff: u32 = 0;
    let mut k: usize = 0;
    while k < dirs.len()
        invariant
            view@.wf(),
            interior(world_pos, 1),
            k <= dirs@.len(),
            ds == dirs@,
            ds == granular_dirs(world_pos, tick, source_cell@.granular_mat as u8),
            all_unit(ds),
            view@.cell_at(world_pos) == Some(*source_cell),
            source_total == floor_height(*source_cell),
            source_mat.0 == source_cell@.granular_mat,
            repose == granular_repose(source_mat.0),
            best_dest == with_index(view@, granular_dest_scan(view@, world_pos, *source_cell, ds, k as int).0),
            best_diff == granular_dest_scan(view@, world_pos, *source_cell, ds, k as int).1,
        decreases dirs@.len() - k,
    {
        let dir = dirs[k];
        assert(unit_offset(ds[k as int]));
        let neighbor_pos = offset(world_pos, dir);
        if let Some((neighbor_idx, neighbor_cell)) = view.get_cell(neighbor_pos) {
            proof {
                lemma_cell_fields_bounded(*neighbor_cell);
            }
            let neighbor_total = neighbor_cell.elevation() as u32 + neighbor_cell.granular_vol() as u32;
            if source_total.saturating_sub(neighbor_total) > repose as u32 {
                let diff = source_total - neighbor_total;
                let is_empty = neighbor_cell.granular_mat().0 == GranularMat::EMPTY;
                let is_same = neighbor_cell.granular_mat().0 == source_mat.0;
                if (is_empty || is_same) && diff > best_diff {
                    best_diff = diff;
                    best_dest = Some((neighbor_idx, neighbor_pos));
                }
            }
        }
        k = k + 1;
    }
    best_dest
}

/// The neighbour whose granular column slides onto `world_pos`, with its buffer slot.
fn get_preferred_source(world_pos: IVec2, view: GridReadView, tick: u32) -> (r: Option<(usize, IVec2)>)
    requires
        view@.wf(),
        interior(world_pos, 2),
    ensures
        r == with_index(view@, granular_source(view@, world_pos, tick)),
{
    let shuffled = ShuffledDirs::new_deterministic(FlowPattern::Omni, world_pos, tick, 0, 0);
    proof {
        lemma_deterministic_dirs_unit(FlowPattern::Omni, world_pos, tick, 0, 0, 0);
    }
    let ghost here = view@.cell_at(world_pos);
    let dirs = shuffled.get();
    let ghost ds = dirs@;
    let mut best_source: Option<(usize, IVec2)> = None;
    let mut best_diff: u32 = 0;
    let mut k: usize = 0;
    while k < dirs.len()
        invariant
            view@.wf(),
            interior(world_pos, 2),
            k <= dirs@.len(),
            ds == dirs@,
            ds == granular_dirs(world_pos, tick, 0),
            all_unit(ds),
            here == view@.cell_at(world_pos),
            here matches Some(dc) ==> best_source == with_index(
                view@,
                granular_source_scan(view@, world_pos, dc, tick, ds, k as int).0,
            ) && best_diff == granular_source_scan(view@, world_pos, dc, tick, ds, k as int).1,
            here is None ==> best_source is None,
        decreases dirs@.len() - k,
    {
        let dir = dirs[k];
        assert(unit_offset(ds[k as int]));
        let neighbor_pos = offset(world_pos, dir);
        assert(interior(neighbor_pos, 1));
        if let Some((neighbor_idx, neighbor_cell)) = view.get_cell(neighbor_pos) {
            proof {
                lemma_cell_fields_bounded(*neighbor_cell);
            }
            if get_granular_repose(neighbor_cell.granular_mat()) != u16::MAX {
                if let Some((_, dest_pos)) = get_preferred_destination(neighbor_pos, view, tick) {
                    if dest_pos == world_pos {
                        proof {
                            lemma_granular_neighbours(view@, neighbor_pos, tick);
                        }
                        let (_, dest_cell) = match view.get_cell(world_pos) {
                            Some(found) => found,
                            None => return None,
                        };
                        proof {
                            lemma_cell_fields_bounded(*dest_cell);
                        }
                        let neighbor_total = neighbor_cell.elevation() as u32 + neighbor_cell.granular_vol() as u32;
                        let dest_total = dest_cell.elevation() as u32 + dest_cell.granular_vol() as u32;
                        let diff = neighbor_total.saturating_sub(dest_total);
                        if diff > best_diff {
                            best_diff = diff;
                            best_source = Some((neighbor_idx, neighbor_pos));
                        }
                    }
                }
            }
        }
        k = k + 1;
    }
    best_source
}

/// One granular step for the cell at `world_pos`: take in matter from the neighbour that
/// slides onto it, give matter to the neighbour it slides onto when it is that neighbour's
/// choice; an empty column loses its granular material.
pub fn step_granular(cell: &mut WorldCell, old_cell: &WorldCell, view: GridReadView, world_pos: IVec2, tick: u32)
    requires
        view@.wf(),
        interior(world_pos, 3),
    ensures
        final(cell)@ == granular_step(old(cell)@, *old_cell, view@, world_pos, tick),
{
    proof {
        lemma_cell_fields_bounded(*old_cell);
        lemma_granular_neighbours(view@, world_pos, tick);
    }
    let old_vol = old_cell.granular_vol();
    let mut incoming_amt: u16 = 0;
    let mut incoming_mat = GranularMat(GranularMat::EMPTY);
    let mut outgoing_amt: u16 = 0;

    if let Some((source_idx, source_pos)) = get_preferred_source(world_pos, view, tick) {
        proof {
            view@.lemma_slot_in_buffer(source_pos);
        }
        let source_cell = &view.cells[source_idx];
        incoming_amt = calc_granular_transfer(source_cell, old_cell, source_pos, tick);
        incoming_mat = source_cell.granular_mat();
    }
    if old_cell.granular_mat().0 != GranularMat::EMPTY {
        if let Some((_, dest_pos)) = get_preferred_destination(world_pos, view, tick) {
            proof {
                lemma_granular_neighbours(view@, dest_pos, tick);
            }
            if let Some((_, winner_pos)) = get_preferred_source(dest_pos, view, tick) {
                if winner_pos == world_pos {
                    if let Some((dest_idx, _)) = view.get_cell(dest_pos) {
                        let dest_cell = &view.cells[dest_idx];
                        outgoing_amt = calc_granular_transfer(old_cell, dest_cell, world_pos, tick);
                    }
                }
            }
        }
    }
    if incoming_amt == 0 && outgoing_amt == 0 {
        return;
    }
    if incoming_amt > 0 && old_cell.granular_mat().0 == GranularMat::EMPTY {
        cell.set_granular_mat(incoming_mat);
    }
    cell.set_granular_vol(old_vol.saturating_add(incoming_amt).saturating_sub(outgoing_amt));
    if cell.granular_vol() == 0 {
        proof {
            lemma_mask_noop(0);
        }
        cell.set_granular_mat(GranularMat(GranularMat::EMPTY));
    }
}

/// Granular matter is handed over, never made or lost between two cells: whatever a cell
/// gives away goes to its destination, which has that cell as its chosen source and takes in
/// exactly that amount.
pub proof fn law_granular_exchange(view: GridModel, pos: IVec2, tick: u32)
    requires
        view.cell_at(pos) is Some,
        granular_outflow(view.cell_at(pos).unwrap(), view, pos, tick) > 0,
    ensures
        ({
            let d = granular_dest(view, pos, tick).unwrap();
            &&& granular_dest(view, pos, tick) is Some
            &&& granular_source(view, d, tick) == Some(pos)
            &&& view.cell_at(d) is Some
            &&& granular_inflow(view.cell_at(d).unwrap(), view, d, tick) == granular_outflow(
                view.cell_at(pos).unwrap(),
                view,
                pos,
                tick,
            )
        }),
{
}


proof fn lemma_source_scan_gives(view: GridModel, pos: IVec2, dc: WorldCell, tick: u32, dirs: Seq<IVec2>, n: int)
    ensures
        granular_source_scan(view, pos, dc, tick, dirs, n).0 matches Some(q) ==> view.cell_at(q) is Some
            && granular_repose(view.cell_at(q).unwrap()@.granular_mat as u8) != u16::MAX && granular_dest(view, q, tick)
            == Some(pos),
    decreases n,
{
    if n > 0 {
        lemma_source_scan_gives(view, pos, dc, tick, dirs, n - 1);
    }
}

/// A cell's chosen source is a cell of the window whose granular matter slides onto that cell,
/// and what the source gives away is exactly what the cell takes in.
pub proof fn law_granular_source_gives(view: GridModel, pos: IVec2, tick: u32)
    requires
        view.cell_at(pos) is Some,
    ensures
        granular_source(view, pos, tick) matches Some(s) ==> {
            &&& view.cell_at(s) is Some
            &&& granular_dest(view, s, tick) == Some(pos)
            &&& granular_outflow(view.cell_at(s).unwrap(), view, s, tick) == granular_inflow(
                view.cell_at(pos).unwrap(),
                view,
                pos,
                tick,
            )
        },
{
    let dc = view.cell_at(pos).unwrap();
    let dirs = granular_dirs(pos, tick, 0);
    lemma_source_scan_gives(view, pos, dc, tick, dirs, dirs.len() as int);
    if let Some(s) = granular_source(view, pos, tick) {
        lemma_cell_fields_bounded(view.cell_at(s).unwrap());
    }
}

/// One granular step changes a cell's granular volume by exactly what slides in minus what
/// slides out.
pub proof fn lemma_granular_step_volume(view: GridModel, pos: IVec2, tick: u32)
    requires
        view.cell_at(pos) is Some,
    ensures
        ({
            let old = view.cell_at(pos).unwrap();
            &&& 0 <= granular_outflow(old, view, pos, tick) <= old@.granular_vol
            &&& 0 <= granular_inflow(old, view, pos, tick)
            &&& granular_step(old@, old, view, pos, tick).granular_vol == old@.granular_vol + granular_inflow(
                old,
                view,
                pos,
                tick,
            ) - granular_outflow(old, view, pos, tick)
        }),
{
    let old = view.cell_at(pos).unwrap();
    lemma_cell_fields_bounded(old);
    if let Some(sp) = granular_source(view, pos, tick) {
        crate::physics::law_granular_transfer_bounds(view.cell_at(sp).unwrap(), old, sp.x, sp.y, tick);
    }
    if let Some(dp) = granular_dest(view, pos, tick) {
        if let Some(dc) = view.cell_at(dp) {
            crate::physics::law_granular_transfer_bounds(old, dc, pos.x, pos.y, tick);
        }
    }
    let vol = old@.granular_vol + granular_inflow(old, view, pos, tick) - granular_outflow(old, view, pos, tick);
    assert(0 <= vol <= 511);
    crate::cell::lemma_mask_noop(vol as u64);
}

/// The granular volume of each slot of `view`.
pub open spec fn granular_before(view: GridModel) -> spec_fn(int) -> int {
    |i: int| view.cells[i]@.granular_vol as int
}

/// The granular volume of each slot after the granular rule steps it from `view`.
pub open spec fn granular_after(view: GridModel, tick: u32) -> spec_fn(int) -> int {
    |i: int| granular_step(view.cells[i]@, view.cells[i], view, crate::sim::liquid::slot_of(view, i), tick).granular_vol as int
}

/// Granular matter that each slot gives away in a granular step from `view`.
pub open spec fn granular_out(view: GridModel, tick: u32) -> spec_fn(int) -> int {
    |i: int| granular_outflow(view.cells[i], view, crate::sim::liquid::slot_of(view, i), tick)
}

/// Granular matter that each slot takes in during a granular step from `view`.
pub open spec fn granular_in(view: GridModel, tick: u32) -> spec_fn(int) -> int {
    |i: int| granular_inflow(view.cells[i], view, crate::sim::liquid::slot_of(view, i), tick)
}

/// A granular tick neither makes nor loses loose matter: stepping every cell of a window from
/// the previous tick's grid leaves the window's total granular volume as it was.
pub proof fn law_granular_conserves_matter(view: GridModel, tick: u32)
    requires
        view.wf(),
        i32::MIN <= view.origin.x,
        view.origin.x + view.width <= i32::MAX,
        i32::MIN <= view.origin.y,
        view.origin.y + view.height <= i32::MAX,
    ensures
        crate::sim::balance::sum_upto(granular_after(view, tick), view.cells.len() as int)
            == crate::sim::balance::sum_upto(granular_before(view), view.cells.len() as int),
{
    let n = view.cells.len() as int;
    let f = granular_out(view, tick);
    let g = granular_in(view, tick);
    let sigma = |i: int| view.index_of(granular_dest(view, crate::sim::liquid::slot_of(view, i), tick).unwrap());
    let tau = |j: int| view.index_of(granular_source(view, crate::sim::liquid::slot_of(view, j), tick).unwrap());
    assert forall|i: int| 0 <= i < n implies view.cell_at(#[trigger] crate::sim::liquid::slot_of(view, i)) == Some(
        view.cells[i],
    ) by {
        crate::sim::world::lemma_slot_pos(view, i);
    }
    assert forall|i: int| 0 <= i < n && #[trigger] f(i) != 0 implies 0 <= sigma(i) < n && g(sigma(i)) == f(i) && tau(sigma(i))
        == i by {
        let p = crate::sim::liquid::slot_of(view, i);
        assert(view.cell_at(p) == Some(view.cells[i]));
        lemma_granular_step_volume(view, p, tick);
        law_granular_exchange(view, p, tick);
        let d = granular_dest(view, p, tick).unwrap();
        crate::sim::world::lemma_slot_of_position(view, d);
        assert(crate::sim::liquid::slot_of(view, view.index_of(d)) == d);
        assert(view.cell_at(d) == Some(view.cells[view.index_of(d)]));
        assert(view.index_of(p) == i) by {
            crate::sim::world::lemma_slot_pos(view, i);
        }
    }
    assert forall|j: int| 0 <= j < n && #[trigger] g(j) != 0 implies 0 <= tau(j) < n && f(tau(j)) == g(j) && sigma(tau(j))
        == j by {
        let p = crate::sim::liquid::slot_of(view, j);
        assert(view.cell_at(p) == Some(view.cells[j]));
        law_granular_source_gives(view, p, tick);
        let s = granular_source(view, p, tick).unwrap();
        crate::sim::world::lemma_slot_of_position(view, s);
        assert(crate::sim::liquid::slot_of(view, view.index_of(s)) == s);
        assert(view.cell_at(s) == Some(view.cells[view.index_of(s)]));
        assert(view.index_of(p) == j) by {
            crate::sim::world::lemma_slot_pos(view, j);
        }
    }
    crate::sim::balance::lemma_paired_sums(f, g, sigma, tau, n);
    let before = granular_before(view);
    let after = granular_after(view, tick);
    assert forall|k: int| 0 <= k < n implies #[trigger] after(k) == (|i: int| before(i) + g(i) - f(i))(k) by {
        lemma_granular_step_volume(view, crate::sim::liquid::slot_of(view, k), tick);
        assert(view.cell_at(crate::sim::liquid::slot_of(view, k)) == Some(view.cells[k]));
    }
    crate::sim::balance::lemma_sum_linear(before, g, f, n);
    crate::sim::balance::lemma_sum_unchanged(after, |i: int| before(i) + g(i) - f(i), n);
}

} // verus!
