use vstd::prelude::*;
use crate::cell::{lemma_cell_fields_bounded, CellFields, CompassFlags, FluidMat, WorldCell};
use crate::dirs::{deterministic_momentum_dirs, lemma_deterministic_dirs_unit, FlowPattern, ShuffledDirs};
use crate::geom::IVec2;
use crate::grid::{GridModel, GridReadView};
use crate::hash::{spatial_hash, spatial_hash_spec};
use crate::physics::{calc_liquid_transfer, fluid_surface, liquid_transfer};
use crate::sim::common::{interior, offset, sat_add_u16, sat_sub, shifted, with_index};

verus! {

/// Rarely, one unit of terrain under an incoming flow erodes: when the hash has these bits clear.
pub const EROSION_MASK: u32 = 511;

/// Magma creeps along the four edges; every other fluid flows to all eight neighbours.
pub open spec fn liquid_pattern(m: u64) -> FlowPattern {
    if m == 2 {
        FlowPattern::Cardinal
    } else {
        FlowPattern::Omni
    }
}

/// The order in which a cell holding `c` at `pos` looks at its neighbours.
pub open spec fn liquid_dirs(pos: IVec2, tick: u32, c: WorldCell) -> Seq<IVec2> {
    deterministic_momentum_dirs(liquid_pattern(c@.fluid_mat), pos, tick, c@.fluid_mat as u8, 0, c@.compass as u8)
}

/// Scan of the first `n` directions for the lowest neighbour that fluid from `src` may enter;
/// also returns the lowest surface seen so far.
pub open spec fn liquid_dest_scan(view: GridModel, pos: IVec2, src: WorldCell, dirs: Seq<IVec2>, n: int) -> (
    Option<IVec2>,
    int,
)
    decreases n,
{
    if n <= 0 {
        (None, fluid_surface(src))
    } else {
        let prev = liquid_dest_scan(view, pos, src, dirs, n - 1);
        let q = shifted(pos, dirs[n - 1]);
        match view.cell_at(q) {
            Some(nc) => {
                let nt = fluid_surface(nc);
                let empty = nc@.fluid_mat == 0;
                let same = nc@.fluid_mat == src@.fluid_mat;
                let overtake = !empty && !same && src@.fluid_vol > nc@.fluid_vol;
                if nt < fluid_surface(src) && (empty || same || overtake) && nt < prev.1 {
                    (Some(q), nt)
                } else {
                    prev
                }
            },
            None => prev,
        }
    }
}

/// Where the fluid at `pos` wants to flow: the first strictly lowest surface among the
/// neighbours that are empty of fluid, hold the same fluid, or hold less of another one.
pub open spec fn liquid_dest(view: GridModel, pos: IVec2, tick: u32) -> Option<IVec2> {
    match view.cell_at(pos) {
        None => None,
        Some(src) => if src@.fluid_mat == 0 {
            None
        } else {
            let dirs = liquid_dirs(pos, tick, src);
            liquid_dest_scan(view, pos, src, dirs, dirs.len() as int).0
        },
    }
}

/// What the destination scan keeps: with nothing found, the source's own surface; with a
/// neighbour found, that neighbour's surface, below the source's.
proof fn lemma_liquid_scan_shape(view: GridModel, pos: IVec2, src: WorldCell, dirs: Seq<IVec2>, n: int)
    ensures
        liquid_dest_scan(view, pos, src, dirs, n).1 <= fluid_surface(src),
        liquid_dest_scan(view, pos, src, dirs, n).0 is None ==> liquid_dest_scan(view, pos, src, dirs, n).1
            == fluid_surface(src),
        liquid_dest_scan(view, pos, src, dirs, n).0 matches Some(q) ==> view.cell_at(q) matches Some(dc)
            && fluid_surface(dc) == liquid_dest_scan(view, pos, src, dirs, n).1 && fluid_surface(dc) < fluid_surface(src),
    decreases n,
{
    if n > 0 {
        lemma_liquid_scan_shape(view, pos, src, dirs, n - 1);
    }
}

/// A scanned neighbour that holds no fluid or the same fluid, with a lower surface, makes the
/// scan find a destination at least as low.
proof fn lemma_liquid_scan_finds(view: GridModel, pos: IVec2, src: WorldCell, dirs: Seq<IVec2>, n: int, k: int, nc: WorldCell)
    requires
        0 <= k < n,
        view.cell_at(shifted(pos, dirs[k])) == Some(nc),
        nc@.fluid_mat == 0 || nc@.fluid_mat == src@.fluid_mat,
        fluid_surface(nc) < fluid_surface(src),
    ensures
        liquid_dest_scan(view, pos, src, dirs, n).0 is Some,
        liquid_dest_scan(view, pos, src, dirs, n).1 <= fluid_surface(nc),
    decreases n,
{
    lemma_liquid_scan_shape(view, pos, src, dirs, n - 1);
    if k < n - 1 {
        lemma_liquid_scan_finds(view, pos, src, dirs, n - 1, k, nc);
    }
}

/// Fluid runs downhill into its own kind and into dry ground: when a neighbour the cell at
/// `pos` looks at holds no fluid or the same fluid, and its surface (floor plus fluid) lies
/// strictly below the cell's, the fluid has a destination, and that destination's surface is
/// no higher than the neighbour's and strictly below the cell's.
pub proof fn law_liquid_flows_downhill(view: GridModel, pos: IVec2, tick: u32, src: WorldCell, k: int, nc: WorldCell)
    requires
        view.cell_at(pos) == Some(src),
        src@.fluid_mat != 0,
        0 <= k < liquid_dirs(pos, tick, src).len(),
        view.cell_at(shifted(pos, liquid_dirs(pos, tick, src)[k])) == Some(nc),
        nc@.fluid_mat == 0 || nc@.fluid_mat == src@.fluid_mat,
        nc@.elevation + nc@.granular_vol + nc@.fluid_vol < src@.elevation + src@.granular_vol + src@.fluid_vol,
    ensures
        liquid_dest(view, pos, tick) matches Some(q) && view.cell_at(q) matches Some(dc) && dc@.elevation
            + dc@.granular_vol + dc@.fluid_vol <= nc@.elevation + nc@.granular_vol + nc@.fluid_vol && dc@.elevation
            + dc@.granular_vol + dc@.fluid_vol < src@.elevation + src@.granular_vol + src@.fluid_vol,
{
    let dirs = liquid_dirs(pos, tick, src);
    lemma_liquid_scan_finds(view, pos, src, dirs, dirs.len() as int, k, nc);
    lemma_liquid_scan_shape(view, pos, src, dirs, dirs.len() as int);
}

/// Scan of the first `n` directions for the fullest neighbour whose fluid wants to flow to `pos`;
/// also returns that neighbour's fluid volume.
pub open spec fn liquid_source_scan(view: GridModel, pos: IVec2, tick: u32, dirs: Seq<IVec2>, n: int) -> (
    Option<IVec2>,
    int,
)
    decreases n,
{
    if n <= 0 {
        (None, 0)
    } else {
        let prev = liquid_source_scan(view, pos, tick, dirs, n - 1);
        let q = shifted(pos, dirs[n - 1]);
        match view.cell_at(q) {
            Some(nc) => if nc@.fluid_mat != 0 && liquid_dest(view, q, tick) == Some(pos) && nc@.fluid_vol
                > prev.1 {
                (Some(q), nc@.fluid_vol as int)
            } else {
                prev
            },
            None => prev,
        }
    }
}

/// Which neighbour's fluid flows into `pos`: the fullest of those whose preferred destination is `pos`.
pub open spec fn liquid_source(view: GridModel, pos: IVec2, tick: u32) -> Option<IVec2> {
    match view.cell_at(pos) {
        None => None,
        Some(dc) => {
            let dirs = liquid_dirs(pos, tick, dc);
            liquid_source_scan(view, pos, tick, dirs, dirs.len() as int).0
        },
    }
}

/// Fluid that `old` at `pos` gives away this tick: only to its destination, and only when
/// it is that destination's chosen source.
pub open spec fn liquid_outflow(old: WorldCell, view: GridModel, pos: IVec2, tick: u32) -> int {
    if old@.fluid_mat != 0 {
        match liquid_dest(view, pos, tick) {
            Some(dp) => match liquid_source(view, dp, tick) {
                Some(wp) => if wp == pos {
                    match view.cell_at(dp) {
                        Some(dc) => liquid_transfer(old, dc, pos.x, pos.y, tick),
                        None => 0,
                    }
                } else {
                    0
                },
                None => 0,
            },
            None => 0,
        }
    } else {
        0
    }
}

/// Compass bits pointing along the direction `(fx, fy)` of a flow.
pub open spec fn flow_flags(fx: int, fy: int) -> u64 {
    ((if fy > 0 {
        1int
    } else {
        0
    }) + (if fy < 0 {
        2int
    } else {
        0
    }) + (if fx > 0 {
        4int
    } else {
        0
    }) + (if fx < 0 {
        8int
    } else {
        0
    })) as u64
}

/// Fluid that the cell `old` at `pos` takes in this tick: what its chosen source hands to it.
pub open spec fn liquid_inflow(old: WorldCell, view: GridModel, pos: IVec2, tick: u32) -> int {
    match liquid_source(view, pos, tick) {
        Some(sp) => liquid_transfer(view.cell_at(sp).unwrap(), old, sp.x, sp.y, tick),
        None => 0,
    }
}

/// The fields of a cell after one liquid step, starting from `c0`, where `old` is the cell's
/// value in the previous tick and `view` the previous tick's grid.
pub open spec fn liquid_step(c0: CellFields, old: WorldCell, view: GridModel, pos: IVec2, tick: u32) -> CellFields {
    let src = liquid_source(view, pos, tick);
    let inc: int = liquid_inflow(old, view, pos, tick);
    let out = liquid_outflow(old, view, pos, tick);
    if inc == 0 && out == 0 {
        c0
    } else {
        let inc_mat: u64 = match src {
            Some(sp) => view.cell_at(sp).unwrap()@.fluid_mat,
            None => 0,
        };
        let c1 = if inc > 0 && (old@.fluid_mat == 0 || old@.fluid_mat != inc_mat) {
            c0.with_fluid_mat(inc_mat & 0xF)
        } else {
            c0
        };
        let c2 = if inc > 0 {
            match src {
                Some(sp) => c1.with_compass(flow_flags(pos.x - sp.x, pos.y - sp.y) & 0xF),
                None => c1,
            }
        } else {
            c1
        };
        let elev = if inc > 0 && spatial_hash_spec(pos.x, pos.y, tick) & EROSION_MASK == 0 {
            sat_sub(old@.elevation as int, 1)
        } else {
            old@.elevation as int
        };
        let vol = sat_sub(sat_add_u16(old@.fluid_vol as int, inc), out);
        let c3 = c2.with_fluid_vol((vol as u64) & 0x1FF).with_elevation((elev as u64) & 0xFFF);
        if c3.fluid_vol == 0 {
            c3.with_fluid_mat(0).with_compass(0)
        } else {
            c3
        }
    }
}

/// `q` is `p` or one of its eight neighbours.
pub open spec fn near(p: IVec2, q: IVec2) -> bool {
    -1 <= q.x - p.x <= 1 && -1 <= q.y - p.y <= 1
}

proof fn lemma_dest_scan_found(view: GridModel, pos: IVec2, src: WorldCell, dirs: Seq<IVec2>, n: int)
    requires
        crate::dirs::all_unit(dirs),
        0 <= n <= dirs.len(),
        interior(pos, 1),
    ensures
        liquid_dest_scan(view, pos, src, dirs, n).0 matches Some(q) ==> view.in_window(q) && near(pos, q),
    decreases n,
{
    if n > 0 {
        lemma_dest_scan_found(view, pos, src, dirs, n - 1);
        assert(crate::dirs::unit_offset(dirs[n - 1]));
    }
}

proof fn lemma_source_scan_found(view: GridModel, pos: IVec2, tick: u32, dirs: Seq<IVec2>, n: int)
    requires
        crate::dirs::all_unit(dirs),
        0 <= n <= dirs.len(),
        interior(pos, 1),
    ensures
        liquid_source_scan(view, pos, tick, dirs, n).0 matches Some(q) ==> view.in_window(q) && near(pos, q),
    decreases n,
{
    if n > 0 {
        lemma_source_scan_found(view, pos, tick, dirs, n - 1);
        assert(crate::dirs::unit_offset(dirs[n - 1]));
    }
}

/// The liquid destination and source of a cell are cells of the window next to it.
pub proof fn lemma_liquid_neighbours(view: GridModel, pos: IVec2, tick: u32)
    requires
        interior(pos, 1),
    ensures
        liquid_dest(view, pos, tick) matches Some(q) ==> view.in_window(q) && near(pos, q),
        liquid_source(view, pos, tick) matches Some(q) ==> view.in_window(q) && near(pos, q),
{
    if let Some(c) = view.cell_at(pos) {
        lemma_cell_fields_bounded(c);
        lemma_deterministic_dirs_unit(liquid_pattern(c@.fluid_mat), pos, tick, c@.fluid_mat as u8, 0, c@.compass as u8);
        let dirs = liquid_dirs(pos, tick, c);
        lemma_dest_scan_found(view, pos, c, dirs, dirs.len() as int);
        lemma_source_scan_found(view, pos, tick, dirs, dirs.len() as int);
    }
}

fn liquid_pattern_of(m: u8) -> (r: FlowPattern)
    ensures
        r == liquid_pattern(m as u64),
{
    if m == FluidMat::FLUID_MAGMA {
        FlowPattern::Cardinal
    } else {
        FlowPattern::Omni
    }
}

/// The neighbour into which the fluid at `world_pos` flows, with its buffer slot.
fn get_preferred_destination(world_pos: IVec2, view: GridReadView, tick: u32) -> (r: Option<(usize, IVec2)>)
    requires
        view@.wf(),
        interior(world_pos, 1),
    ensures
        r == with_index(view@, liquid_dest(view@, world_pos, tick)),
{
    let (_, source_cell) = match view.get_cell(world_pos) {
        Some(found) => found,
        None => return None,
    };
    let source_mat = source_cell.fluid_mat();
    if source_mat.0 == FluidMat::EMPTY {
        return None;
    }
    let pattern = liquid_pattern_of(source_mat.0);
    let shuffled = ShuffledDirs::new_deterministic_with_momentum(
        pattern,
        world_pos,
        tick,
        source_mat.0,
        0,
        source_cell.compass(),
    );
    proof {
        lemma_cell_fields_bounded(*source_cell);
        lemma_deterministic_dirs_unit(pattern, world_pos, tick, source_mat.0, 0, source_cell@.compass as u8);
    }
    let source_total = source_cell.elevation() as u32 + source_cell.granular_vol() as u32
        + source_cell.fluid_vol() as u32;
    let dirs = shuffled.get();
    let ghost ds = dirs@;
    let mut best_dest: Option<(usize, IVec2)> = None;
    let mut best_total = source_total;
    let mut k: usize = 0;
    while k < dirs.len()
        invariant
            view@.wf(),
            interior(world_pos, 1),
            k <= dirs@.len(),
            ds == dirs@,
            ds == liquid_dirs(world_pos, tick, *source_cell),
            crate::dirs::all_unit(ds),
            view@.cell_at(world_pos) == Some(*source_cell),
            source_total == fluid_surface(*source_cell),
            source_mat.0 == source_cell@.fluid_mat,
            best_dest == with_index(view@, liquid_dest_scan(view@, world_pos, *source_cell, ds, k as int).0),
            best_total == liquid_dest_scan(view@, world_pos, *source_cell, ds, k as int).1,
        decreases dirs@.len() - k,
    {
        let dir = dirs[k];
        let neighbor_pos = offset(world_pos, dir);
        let ghost prev = liquid_dest_scan(view@, world_pos, *source_cell, ds, k as int);
        assert(neighbor_pos == shifted(world_pos, ds[k as int]));
        if let Some((neighbor_idx, neighbor_cell)) = view.get_cell(neighbor_pos) {
            proof {
                lemma_cell_fields_bounded(*neighbor_cell);
                assert(view@.cell_at(neighbor_pos) == Some(*neighbor_cell));
            }
            let neighbor_total = neighbor_cell.elevation() as u32 + neighbor_cell.granular_vol() as u32
                + neighbor_cell.fluid_vol() as u32;
            if neighbor_total < source_total {
                let is_empty = neighbor_cell.fluid_mat().0 == FluidMat::EMPTY;
                let is_same = neighbor_cell.fluid_mat().0 == source_mat.0;
                let can_overtake = !is_empty && !is_same && source_cell.fluid_vol() > neighbor_cell.fluid_vol();
                if is_empty || is_same || can_overtake {
                    if neighbor_total < best_total {
                        best_total = neighbor_total;
                        best_dest = Some((neighbor_idx, neighbor_pos));
                    }
                }
            }
        } else {
            assert(view@.cell_at(neighbor_pos) is None);
            assert(liquid_dest_scan(view@, world_pos, *source_cell, ds, k as int + 1) == prev);
        }
        k = k + 1;
    }
    best_dest
}

/// The neighbour whose fluid flows into `world_pos`, with its buffer slot.
fn get_preferred_source(world_pos: IVec2, view: GridReadView, tick: u32) -> (r: Option<(usize, IVec2)>)
    requires
        view@.wf(),
        interior(world_pos, 2),
    ensures
        r == with_index(view@, liquid_source(view@, world_pos, tick)),
{
    let (_, dest_cell) = match view.get_cell(world_pos) {
        Some(found) => found,
        None => return None,
    };
    let dest_mat = dest_cell.fluid_mat();
    let pattern = liquid_pattern_of(dest_mat.0);
    let shuffled = ShuffledDirs::new_deterministic_with_momentum(
        pattern,
        world_pos,
        tick,
        dest_mat.0,
        0,
        dest_cell.compass(),
    );
    proof {
        lemma_cell_fields_bounded(*dest_cell);
        lemma_deterministic_dirs_unit(pattern, world_pos, tick, dest_mat.0, 0, dest_cell@.compass as u8);
    }
    let dirs = shuffled.get();
    let ghost ds = dirs@;
    let mut best_source: Option<(usize, IVec2)> = None;
    let mut best_fluid: u16 = 0;
    let mut k: usize = 0;
    while k < dirs.len()
        invariant
            view@.wf(),
            interior(world_pos, 2),
            k <= dirs@.len(),
            ds == dirs@,
            ds == liquid_dirs(world_pos, tick, *dest_cell),
            crate::dirs::all_unit(ds),
            view@.cell_at(world_pos) == Some(*dest_cell),
            best_source == with_index(view@, liquid_source_scan(view@, world_pos, tick, ds, k as int).0),
            best_fluid == liquid_source_scan(view@, world_pos, tick, ds, k as int).1,
        decreases dirs@.len() - k,
    {
        let dir = dirs[k];
        assert(crate::dirs::unit_offset(ds[k as int]));
        let neighbor_pos = offset(world_pos, dir);
        assert(interior(neighbor_pos, 1));
        if let Some((neighbor_idx, neighbor_cell)) = view.get_cell(neighbor_pos) {
            if neighbor_cell.fluid_mat().0 != FluidMat::EMPTY {
                if let Some((_, pref_pos)) = get_preferred_destination(neighbor_pos, view, tick) {
                    if pref_pos == world_pos {
                        if neighbor_cell.fluid_vol() > best_fluid {
                            best_fluid = neighbor_cell.fluid_vol();
                            best_source = Some((neighbor_idx, neighbor_pos));
                        }
                    }
                }
            }
        }
        k = k + 1;
    }
    best_source
}

/// One liquid step for the cell at `world_pos`: take in fluid from the neighbour that chose
/// this cell, give fluid to the neighbour this cell chose when it is that neighbour's choice,
/// and record the flow's direction; an empty column loses its fluid material.
pub fn step_liquid(cell: &mut WorldCell, old_cell: &WorldCell, view: GridReadView, world_pos: IVec2, tick: u32)
    requires
        view@.wf(),
        interior(world_pos, 3),
    ensures
        final(cell)@ == liquid_step(old(cell)@, *old_cell, view@, world_pos, tick),
{
    let ghost c0 = cell@;
    proof {
        lemma_cell_fields_bounded(*old_cell);
    }
    let old_fluid = old_cell.fluid_vol();
    let mut old_elev = old_cell.elevation();
    let mut incoming_amt: u16 = 0;
    let mut incoming_mat = FluidMat(FluidMat::EMPTY);
    let mut outgoing_amt: u16 = 0;
    let mut source_pos_cache: Option<IVec2> = None;

    proof {
        lemma_liquid_neighbours(view@, world_pos, tick);
    }
    if let Some((source_idx, source_pos)) = get_preferred_source(world_pos, view, tick) {
        proof {
            view@.lemma_slot_in_buffer(source_pos);
        }
        source_pos_cache = Some(source_pos);
        let source_cell = &view.cells[source_idx];
        incoming_amt = calc_liquid_transfer(source_cell, old_cell, source_pos, tick);
        incoming_mat = source_cell.fluid_mat();
    }
    if old_cell.fluid_mat().0 != FluidMat::EMPTY {
        if let Some((_, dest_pos)) = get_preferred_destination(world_pos, view, tick) {
            proof {
                lemma_liquid_neighbours(view@, dest_pos, tick);
            }
            if let Some((_, winner_pos)) = get_preferred_source(dest_pos, view, tick) {
                if winner_pos == world_pos {
                    if let Some((dest_idx, _)) = view.get_cell(dest_pos) {
                        let dest_cell = &view.cells[dest_idx];
                        outgoing_amt = calc_liquid_transfer(old_cell, dest_cell, world_pos, tick);
                    }
                }
            }
        }
    }
    if incoming_amt == 0 && outgoing_amt == 0 {
        return;
    }
    if incoming_amt > 0 {
        if old_cell.fluid_mat().0 == FluidMat::EMPTY || old_cell.fluid_mat().0 != incoming_mat.0 {
            cell.set_fluid_mat(incoming_mat);
        }
        if let Some(sp) = source_pos_cache {
            let fx = world_pos.x as i64 - sp.x as i64;
            let fy = world_pos.y as i64 - sp.y as i64;
            let mut new_flags: u8 = 0;
            if fy > 0 {
                new_flags = new_flags + CompassFlags::FACING_N;
            }
            if fy < 0 {
                new_flags = new_flags + CompassFlags::FACING_S;
            }
            if fx > 0 {
                new_flags = new_flags + CompassFlags::FACING_E;
            }
            if fx < 0 {
                new_flags = new_flags + CompassFlags::FACING_W;
            }
            cell.set_compass(new_flags);
        }
        if spatial_hash(world_pos, tick) & EROSION_MASK == 0 {
            old_elev = old_elev.saturating_sub(1);
        }
    }
    cell.set_fluid_vol(old_fluid.saturating_add(incoming_amt).saturating_sub(outgoing_amt));
    cell.set_elevation(old_elev);
    if cell.fluid_vol() == 0 {
        proof {
            crate::cell::lemma_mask_noop(0);
        }
        cell.set_fluid_mat(FluidMat(FluidMat::EMPTY));
        cell.set_compass(0);
    }
}

/// Fluid is handed over, never made or lost between two cells: whatever a cell gives away in
/// a tick goes to its destination, which has that cell as its chosen source and takes in
/// exactly that amount.
pub proof fn law_liquid_exchange(view: GridModel, pos: IVec2, tick: u32)
    requires
        view.cell_at(pos) is Some,
        liquid_outflow(view.cell_at(pos).unwrap(), view, pos, tick) > 0,
    ensures
        ({
            let d = liquid_dest(view, pos, tick).unwrap();
            &&& liquid_dest(view, pos, tick) is Some
            &&& liquid_source(view, d, tick) == Some(pos)
            &&& view.cell_at(d) is Some
            &&& liquid_inflow(view.cell_at(d).unwrap(), view, d, tick) == liquid_outflow(
                view.cell_at(pos).unwrap(),
                view,
                pos,
                tick,
            )
        }),
{
}


proof fn lemma_source_scan_gives(view: GridModel, pos: IVec2, tick: u32, dirs: Seq<IVec2>, n: int)
    ensures
        liquid_source_scan(view, pos, tick, dirs, n).0 matches Some(q) ==> view.cell_at(q) is Some && view.cell_at(
            q,
        ).unwrap()@.fluid_mat != 0 && liquid_dest(view, q, tick) == Some(pos),
    decreases n,
{
    if n > 0 {
        lemma_source_scan_gives(view, pos, tick, dirs, n - 1);
    }
}

/// A cell's chosen source is a cell of the window whose fluid wants to flow to that cell, and
/// what the source gives away is exactly what the cell takes in.
pub proof fn law_liquid_source_gives(view: GridModel, pos: IVec2, tick: u32)
    requires
        view.cell_at(pos) is Some,
    ensures
        liquid_source(view, pos, tick) matches Some(s) ==> {
            &&& view.cell_at(s) is Some
            &&& liquid_dest(view, s, tick) == Some(pos)
            &&& liquid_outflow(view.cell_at(s).unwrap(), view, s, tick) == liquid_inflow(
                view.cell_at(pos).unwrap(),
                view,
                pos,
                tick,
            )
        },
{
    let dc = view.cell_at(pos).unwrap();
    let dirs = liquid_dirs(pos, tick, dc);
    lemma_source_scan_gives(view, pos, tick, dirs, dirs.len() as int);
}

/// One liquid step changes a cell's fluid volume by exactly what flows in minus what flows out.
pub proof fn lemma_liquid_step_volume(view: GridModel, pos: IVec2, tick: u32)
    requires
        view.cell_at(pos) is Some,
    ensures
        ({
            let old = view.cell_at(pos).unwrap();
            &&& 0 <= liquid_outflow(old, view, pos, tick) <= old@.fluid_vol
            &&& 0 <= liquid_inflow(old, view, pos, tick)
            &&& liquid_step(old@, old, view, pos, tick).fluid_vol == old@.fluid_vol + liquid_inflow(old, view, pos, tick)
                - liquid_outflow(old, view, pos, tick)
        }),
{
    let old = view.cell_at(pos).unwrap();
    lemma_cell_fields_bounded(old);
    if let Some(sp) = liquid_source(view, pos, tick) {
        crate::physics::law_liquid_transfer_bounds(view.cell_at(sp).unwrap(), old, sp.x, sp.y, tick);
    }
    if let Some(dp) = liquid_dest(view, pos, tick) {
        if let Some(dc) = view.cell_at(dp) {
            crate::physics::law_liquid_transfer_bounds(old, dc, pos.x, pos.y, tick);
        }
    }
    let vol = old@.fluid_vol + liquid_inflow(old, view, pos, tick) - liquid_outflow(old, view, pos, tick);
    assert(0 <= vol <= 511);
    crate::cell::lemma_mask_noop(vol as u64);
}

/// The position of the cell in buffer slot `i` of `view`.
pub open spec fn slot_of(view: GridModel, i: int) -> IVec2 {
    crate::sim::world::slot_pos(view.width, view.height, view.origin, view.head, i)
}

/// The fluid volume of each slot of `view`.
pub open spec fn fluid_before(view: GridModel) -> spec_fn(int) -> int {
    |i: int| view.cells[i]@.fluid_vol as int
}

/// The fluid volume of each slot after the liquid rule steps it from `view`.
pub open spec fn fluid_after(view: GridModel, tick: u32) -> spec_fn(int) -> int {
    |i: int| liquid_step(view.cells[i]@, view.cells[i], view, slot_of(view, i), tick).fluid_vol as int
}

/// Fluid that each slot gives away in a liquid step from `view`.
pub open spec fn fluid_out(view: GridModel, tick: u32) -> spec_fn(int) -> int {
    |i: int| liquid_outflow(view.cells[i], view, slot_of(view, i), tick)
}

/// Fluid that each slot takes in during a liquid step from `view`.
pub open spec fn fluid_in(view: GridModel, tick: u32) -> spec_fn(int) -> int {
    |i: int| liquid_inflow(view.cells[i], view, slot_of(view, i), tick)
}

/// A liquid tick neither makes nor loses fluid: stepping every cell of a window from the
/// previous tick's grid leaves the window's total fluid volume as it was.
pub proof fn law_liquid_conserves_fluid(view: GridModel, tick: u32)
    requires
        view.wf(),
        i32::MIN <= view.origin.x,
        view.origin.x + view.width <= i32::MAX,
        i32::MIN <= view.origin.y,
        view.origin.y + view.height <= i32::MAX,
    ensures
        crate::sim::balance::sum_upto(fluid_after(view, tick), view.cells.len() as int) == crate::sim::balance::sum_upto(
            fluid_before(view),
            view.cells.len() as int,
        ),
{
    let n = view.cells.len() as int;
    let f = fluid_out(view, tick);
    let g = fluid_in(view, tick);
    let sigma = |i: int| view.index_of(liquid_dest(view, slot_of(view, i), tick).unwrap());
    let tau = |j: int| view.index_of(liquid_source(view, slot_of(view, j), tick).unwrap());
    assert forall|i: int| 0 <= i < n implies view.cell_at(#[trigger] slot_of(view, i)) == Some(view.cells[i]) by {
        crate::sim::world::lemma_slot_pos(view, i);
    }
    assert forall|i: int| 0 <= i < n && #[trigger] f(i) != 0 implies 0 <= sigma(i) < n && g(sigma(i)) == f(i) && tau(sigma(i))
        == i by {
        let p = slot_of(view, i);
        assert(view.cell_at(p) == Some(view.cells[i]));
        lemma_liquid_step_volume(view, p, tick);
        law_liquid_exchange(view, p, tick);
        let d = liquid_dest(view, p, tick).unwrap();
        crate::sim::world::lemma_slot_of_position(view, d);
        assert(slot_of(view, view.index_of(d)) == d);
        assert(view.cell_at(d) == Some(view.cells[view.index_of(d)]));
        crate::sim::world::lemma_slot_of_position(view, p);
        assert(view.index_of(p) == i) by {
            crate::sim::world::lemma_slot_pos(view, i);
        }
    }
    assert forall|j: int| 0 <= j < n && #[trigger] g(j) != 0 implies 0 <= tau(j) < n && f(tau(j)) == g(j) && sigma(tau(j))
        == j by {
        let p = slot_of(view, j);
        assert(view.cell_at(p) == Some(view.cells[j]));
        law_liquid_source_gives(view, p, tick);
        let s = liquid_source(view, p, tick).unwrap();
        crate::sim::world::lemma_slot_of_position(view, s);
        assert(slot_of(view, view.index_of(s)) == s);
        assert(view.cell_at(s) == Some(view.cells[view.index_of(s)]));
        assert(view.index_of(p) == j) by {
            crate::sim::world::lemma_slot_pos(view, j);
        }
    }
    crate::sim::balance::lemma_paired_sums(f, g, sigma, tau, n);
    let before = fluid_before(view);
    let after = fluid_after(view, tick);
    assert forall|k: int| 0 <= k < n implies #[trigger] after(k) == (|i: int| before(i) + g(i) - f(i))(k) by {
        lemma_liquid_step_volume(view, slot_of(view, k), tick);
        assert(view.cell_at(slot_of(view, k)) == Some(view.cells[k]));
    }
    crate::sim::balance::lemma_sum_linear(before, g, f, n);
    crate::sim::balance::lemma_sum_unchanged(after, |i: int| before(i) + g(i) - f(i), n);
}

} // verus!
