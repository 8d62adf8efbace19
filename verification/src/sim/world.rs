use vstd::prelude::*;
use vstd::arithmetic::div_mod::{lemma_add_mod_noop_right, lemma_fundamental_div_mod, lemma_mod_bound, lemma_small_mod};
use crate::cell::{lemma_cell_fields_bounded, lemma_cell_fields_injective, CellFields, SurfaceMat, WorldCell};
use crate::geom::{wrap_i64, IVec2};
use crate::grid::{ActiveWorldGrid, GridModel, GridReadView};
use crate::rng::random_ratio;
use crate::sim::biology_hydrated::{hydrated_biology_step, step_biology};
use crate::sim::common::{interior, offset, ring_offset, ring_offset_exec, shifted, GridEvent};
use crate::sim::fire::{fire_step, step_fire};
use crate::sim::granular::{granular_step, step_granular};
use crate::sim::liquid::{liquid_step, step_liquid};
use rand::rngs::SmallRng;

verus! {

/// Which rules the world step runs.
pub struct SimulationConfig {
    pub run_liquid: bool,
    pub run_biology: bool,
    pub run_granular: bool,
    pub run_fire: bool,
}

impl Default for SimulationConfig {
    /// Every rule switched on.
    fn default() -> (r: Self)
        ensures
            r.run_liquid && r.run_biology && r.run_granular && r.run_fire,
    {
        SimulationConfig { run_liquid: true, run_biology: true, run_granular: true, run_fire: true }
    }
}

/// The world position whose cell lives in buffer slot `idx` of a grid with this geometry.
pub open spec fn slot_pos(width: int, height: int, origin: IVec2, head: IVec2, idx: int) -> IVec2 {
    IVec2 {
        x: ((idx % width - head.x) % width + origin.x) as i32,
        y: ((idx / width - head.y) % height + origin.y) as i32,
    }
}

/// A position in the window is the position of its own slot.
pub(crate) proof fn lemma_slot_of_position(v: GridModel, p: IVec2)
    requires
        v.wf(),
        v.in_window(p),
        i32::MIN <= v.origin.x,
        v.origin.x + v.width <= i32::MAX,
        i32::MIN <= v.origin.y,
        v.origin.y + v.height <= i32::MAX,
    ensures
        0 <= v.index_of(p) < v.cells.len(),
        slot_pos(v.width, v.height, v.origin, v.head, v.index_of(p)) == p,
{
    v.lemma_slot_in_buffer(p);
    lemma_slot_pos(v, v.index_of(p));
    crate::sim::balance::lemma_window_slots_distinct(v, slot_pos(v.width, v.height, v.origin, v.head, v.index_of(p)), p);
}

/// The window of the grid keeps `m` cells of room from the ends of the `i32` range.
pub open spec fn window_clear_of_limits(g: &ActiveWorldGrid, m: int) -> bool {
    &&& i32::MIN + m <= g.window_origin.x
    &&& g.window_origin.x + g.width + m <= i32::MAX
    &&& i32::MIN + m <= g.window_origin.y
    &&& g.window_origin.y + g.height + m <= i32::MAX
}

/// The fields of a cell after one world tick: granular rule on odd ticks, liquid rule on even
/// ticks, then, each when its gate opens, biology and fire. The gates and the rules' chances
/// are the drawn outcomes.
pub open spec fn cell_update(
    old: WorldCell,
    view: GridModel,
    pos: IVec2,
    tick: u32,
    config: SimulationConfig,
    bio_gate: bool,
    bio_first: bool,
    bio_second: bool,
    fire_gate: bool,
    fire_roll: bool,
) -> CellFields {
    let c0 = old@;
    let c1 = if config.run_granular && tick % 2 != 0 {
        granular_step(c0, old, view, pos, tick)
    } else {
        c0
    };
    let c2 = if config.run_liquid && tick % 2 == 0 {
        liquid_step(c1, old, view, pos, tick)
    } else {
        c1
    };
    let c3 = if config.run_biology && bio_gate {
        hydrated_biology_step(c2, old, view, pos, bio_first, bio_second)
    } else {
        c2
    };
    if config.run_fire && fire_gate {
        fire_step(c3, old, view, pos, fire_roll)
    } else {
        c3
    }
}

/// `new` is a possible value of an awake cell that held `old` after one world tick,
/// for some outcome of the chances drawn on the way.
pub open spec fn tick_outcome(
    new: WorldCell,
    old: WorldCell,
    view: GridModel,
    pos: IVec2,
    tick: u32,
    config: SimulationConfig,
) -> bool {
    exists|bg: bool, b1: bool, b2: bool, fg: bool, fr: bool|
        new@ == #[trigger] cell_update(old, view, pos, tick, config, bg, b1, b2, fg, fr)
}

/// Whether a processed cell counts as changed: its bits differ, or it holds young foliage,
/// or it is burning.
pub open spec fn counts_as_changed(new: WorldCell, old: WorldCell) -> bool {
    new != old || (new@.surface_mat == 2 && new@.surface_state < 10) || new@.surface_mat == 1
}

pub open spec fn max_u8(a: int, b: int) -> int {
    if a >= b {
        a
    } else {
        b
    }
}

pub(crate) proof fn lemma_slot_pos(v: GridModel, idx: int)
    requires
        v.wf(),
        0 <= idx < v.cells.len(),
        i32::MIN <= v.origin.x,
        v.origin.x + v.width <= i32::MAX,
        i32::MIN <= v.origin.y,
        v.origin.y + v.height <= i32::MAX,
    ensures
        v.in_window(slot_pos(v.width, v.height, v.origin, v.head, idx)),
        v.index_of(slot_pos(v.width, v.height, v.origin, v.head, idx)) == idx,
{
    reveal(GridModel::index_xy);
    let w = v.width;
    let h = v.height;
    let bx = idx % w;
    let by = idx / w;
    lemma_fundamental_div_mod(idx, w);
    lemma_mod_bound(idx, w);
    assert(0 <= by < h) by (nonlinear_arith)
        requires
            idx == w * by + bx,
            0 <= bx < w,
            0 <= idx < w * h,
            w > 0,
    ;
    let lx = (bx - v.head.x) % w;
    let ly = (by - v.head.y) % h;
    lemma_mod_bound(bx - v.head.x, w);
    lemma_mod_bound(by - v.head.y, h);
    let p = slot_pos(w, h, v.origin, v.head, idx);
    assert(p.x == lx + v.origin.x);
    assert(p.y == ly + v.origin.y);
    lemma_add_mod_noop_right(v.head.x as int, bx - v.head.x, w);
    lemma_add_mod_noop_right(v.head.y as int, by - v.head.y, h);
    lemma_small_mod(bx as nat, w as nat);
    lemma_small_mod(by as nat, h as nat);
    assert(lx + v.head.x == v.head.x + lx);
    assert((v.head.x + (bx - v.head.x)) == bx);
    assert((v.head.y + (by - v.head.y)) == by);
    assert((p.x - v.origin.x + v.head.x) % w == bx);
    assert((p.y - v.origin.y + v.head.y) % h == by);
    assert(by * w == w * by) by (nonlinear_arith);
    assert(v.index_of(p) == by * w + bx);
}

/// Whether one of the first `n` offsets of the 3 x 3 block around `p` is in the window and lands on slot `i`.
pub open spec fn block_hits_upto(v: GridModel, p: IVec2, i: int, n: int) -> bool
    decreases n,
{
    if n <= 0 {
        false
    } else {
        block_hits_upto(v, p, i, n - 1) || (v.in_window(shifted(p, ring_offset(n - 1))) && v.index_of(
            shifted(p, ring_offset(n - 1)),
        ) == i)
    }
}

/// Whether one of the first `n` slots was awake, changed, and has slot `i` in its 3 x 3 block.
/// `v` holds the previous tick's cells and `new` the cells after the tick.
pub open spec fn woken_by_changes(v: GridModel, wake: Seq<u8>, new: Seq<WorldCell>, i: int, n: int) -> bool
    decreases n,
{
    if n <= 0 {
        false
    } else {
        woken_by_changes(v, wake, new, i, n - 1) || (wake[n - 1] != 0 && counts_as_changed(new[n - 1], v.cells[n - 1])
            && block_hits_upto(v, slot_pos(v.width, v.height, v.origin, v.head, n - 1), i, 9))
    }
}

/// The wake level of slot `i` for the next tick once the first `n` slots are processed: two
/// when a changed neighbour (or the slot itself) woke it; otherwise a slot that stayed the same
/// counts its own level down by one.
pub open spec fn wake_level(v: GridModel, wake: Seq<u8>, new: Seq<WorldCell>, i: int, n: int) -> int {
    max_u8(
        if woken_by_changes(v, wake, new, i, n) {
            2
        } else {
            0
        },
        if i < n && wake[i] > 1 && !counts_as_changed(new[i], v.cells[i]) {
            wake[i] - 1
        } else {
            0
        },
    )
}

proof fn lemma_woken_prefix(v: GridModel, wake: Seq<u8>, a: Seq<WorldCell>, b: Seq<WorldCell>, i: int, n: int)
    requires
        forall|j: int| 0 <= j < n ==> a[j] == b[j],
    ensures
        woken_by_changes(v, wake, a, i, n) == woken_by_changes(v, wake, b, i, n),
    decreases n,
{
    if n > 0 {
        lemma_woken_prefix(v, wake, a, b, i, n - 1);
    }
}

proof fn lemma_block_hits(v: GridModel, p: IVec2, i: int, n: int, k: int)
    requires
        0 <= k < n,
        v.in_window(shifted(p, ring_offset(k))),
        v.index_of(shifted(p, ring_offset(k))) == i,
    ensures
        block_hits_upto(v, p, i, n),
    decreases n,
{
    if k < n - 1 {
        lemma_block_hits(v, p, i, n - 1, k);
    }
}

proof fn lemma_woken_by(v: GridModel, wake: Seq<u8>, new: Seq<WorldCell>, i: int, n: int, j: int)
    requires
        0 <= j < n,
        wake[j] != 0,
        counts_as_changed(new[j], v.cells[j]),
        block_hits_upto(v, slot_pos(v.width, v.height, v.origin, v.head, j), i, 9),
    ensures
        woken_by_changes(v, wake, new, i, n),
    decreases n,
{
    if j < n - 1 {
        lemma_woken_by(v, wake, new, i, n - 1, j);
    }
}

/// A tick wakes everything around a change: when an awake slot's cell comes out of the tick
/// different from what it held, every slot of the 3 x 3 block around it that lies in the
/// window is awake (level two or more) for the next two ticks.
pub proof fn law_changes_wake_their_block(v: GridModel, wake: Seq<u8>, new: Seq<WorldCell>, j: int, k: int)
    requires
        0 <= j < v.cells.len(),
        wake[j] != 0,
        new[j] != v.cells[j],
        0 <= k < 9,
        v.in_window(shifted(slot_pos(v.width, v.height, v.origin, v.head, j), ring_offset(k))),
    ensures
        wake_level(
            v,
            wake,
            new,
            v.index_of(shifted(slot_pos(v.width, v.height, v.origin, v.head, j), ring_offset(k))),
            v.cells.len() as int,
        ) >= 2,
{
    let p = slot_pos(v.width, v.height, v.origin, v.head, j);
    let i = v.index_of(shifted(p, ring_offset(k)));
    lemma_block_hits(v, p, i, 9, k);
    lemma_woken_by(v, wake, new, i, v.cells.len() as int, j);
}

/// The world position of a buffer slot, computed.
fn slot_world_pos(grid: &ActiveWorldGrid, idx: usize) -> (r: IVec2)
    requires
        grid.wf(),
        idx < grid.size(),
        window_clear_of_limits(grid, 0),
    ensures
        r == slot_pos(grid.width as int, grid.height as int, grid.window_origin, grid.buffer_head, idx as int),
{
    let w = grid.width as i64;
    let h = grid.height as i64;
    let buffer_pos = ActiveWorldGrid::index_to_pos(idx, grid.width);
    let lx = wrap_i64(buffer_pos.x as i64 - grid.buffer_head.x as i64, w);
    let ly = wrap_i64(buffer_pos.y as i64 - grid.buffer_head.y as i64, h);
    IVec2 { x: (lx + grid.window_origin.x as i64) as i32, y: (ly + grid.window_origin.y as i64) as i32 }
}

/// Advances the world by one tick.
///
/// The current cells become the previous tick's (the back buffer) and every awake slot is
/// recomputed from them: on odd ticks the granular rule, on even ticks the liquid rule, then
/// with a one-in-ten chance the biology rule and with even odds the fire rule, each as far as
/// `config` enables it. A slot that changed (or holds young foliage, or burns) wakes its 3 x 3
/// block for two ticks; an unchanged awake slot counts its wake level down. Asleep slots keep
/// their cells. Returns the events the rules raised.
pub fn simulate_world(grid: &mut ActiveWorldGrid, config: &SimulationConfig, rng: &mut SmallRng) -> (events: Vec<GridEvent>)
    requires
        old(grid).wf(),
        window_clear_of_limits(old(grid), 3),
    ensures
        final(grid).wf(),
        final(grid).width == old(grid).width,
        final(grid).height == old(grid).height,
        final(grid).window_origin == old(grid).window_origin,
        final(grid).buffer_head == old(grid).buffer_head,
        final(grid).tick == old(grid).tick.wrapping_add(1),
        final(grid).cells_dirty,
        final(grid).back_buffer@ == old(grid).cells@,
        final(grid).wake_buffer@ == old(grid).next_wake_buffer@,
        forall|i: int|
            0 <= i < old(grid).size() && old(grid).next_wake_buffer@[i] == 0 ==> #[trigger] final(grid).cells@[i]
                == old(grid).cells@[i],
        forall|i: int|
            0 <= i < old(grid).size() && old(grid).next_wake_buffer@[i] != 0 ==> tick_outcome(
                #[trigger] final(grid).cells@[i],
                old(grid).cells@[i],
                final(grid).back_model(),
                slot_pos(old(grid).width as int, old(grid).height as int, old(grid).window_origin, old(grid).buffer_head, i),
                final(grid).tick,
                *config,
            ),
        forall|i: int|
            0 <= i < old(grid).size() ==> #[trigger] final(grid).next_wake_buffer@[i] == wake_level(
                final(grid).back_model(),
                final(grid).wake_buffer@,
                final(grid).cells@,
                i,
                old(grid).size(),
            ),
        forall|j: int, k: int|
            #![trigger final(grid).cells@[j], ring_offset(k)]
            0 <= j < old(grid).size() && old(grid).next_wake_buffer@[j] != 0 && final(grid).cells@[j] != old(
                grid,
            ).cells@[j] && 0 <= k < 9 && final(grid).back_model().in_window(
                shifted(
                    slot_pos(old(grid).width as int, old(grid).height as int, old(grid).window_origin, old(grid).buffer_head, j),
                    ring_offset(k),
                ),
            ) ==> final(grid).next_wake_buffer@[final(grid).back_model().index_of(
                shifted(
                    slot_pos(old(grid).width as int, old(grid).height as int, old(grid).window_origin, old(grid).buffer_head, j),
                    ring_offset(k),
                ),
            )] >= 2,
        events@.len() == 0,
{
    grid.swap_buffers();
    let ghost g1 = *grid;
    let ghost v = grid.back_model();
    let width = grid.width;
    let height = grid.height;
    let tick = grid.tick;
    let n = grid.cells.len();
    let mut events: Vec<GridEvent> = Vec::new();
    let mut idx: usize = 0;
    while idx < n
        invariant
            g1.wf(),
            v == g1.back_model(),
            v.cells == g1.cells@,
            window_clear_of_limits(&g1, 3),
            n == g1.size(),
            idx <= n,
            grid.width == g1.width,
            grid.height == g1.height,
            grid.window_origin == g1.window_origin,
            grid.buffer_head == g1.buffer_head,
            grid.tick == g1.tick,
            tick == g1.tick,
            width == g1.width,
            height == g1.height,
            grid.cells_dirty == g1.cells_dirty,
            grid.back_buffer@ == g1.back_buffer@,
            grid.wake_buffer@ == g1.wake_buffer@,
            grid.cells@.len() == n,
            grid.next_wake_buffer@.len() == n,
            events@.len() == 0,
            forall|i: int| idx <= i < n ==> #[trigger] grid.cells@[i] == g1.cells@[i],
            forall|i: int|
                0 <= i < idx && g1.wake_buffer@[i] == 0 ==> #[trigger] grid.cells@[i] == g1.cells@[i],
            forall|i: int|
                0 <= i < idx && g1.wake_buffer@[i] != 0 ==> tick_outcome(
                    #[trigger] grid.cells@[i],
                    g1.cells@[i],
                    v,
                    slot_pos(v.width, v.height, v.origin, v.head, i),
                    tick,
                    *config,
                ),
            forall|i: int|
                0 <= i < n ==> #[trigger] grid.next_wake_buffer@[i] == wake_level(
                    v,
                    g1.wake_buffer@,
                    grid.cells@,
                    i,
                    idx as int,
                ),
        decreases n - idx,
    {
        let wake_val = grid.wake_buffer[idx];
        if wake_val != 0 {
            let view = GridReadView {
                cells: grid.back_buffer.as_slice(),
                width: grid.width,
                height: grid.height,
                window_origin: grid.window_origin,
                buffer_head: grid.buffer_head,
            };
            assert(view@ == v);
            let world_pos = slot_world_pos(grid, idx);
            proof {
                lemma_slot_pos(v, idx as int);
            }
            assert(interior(world_pos, 3));
            let old_cell = view.cells[idx];
            assert(grid.cells@[idx as int] == old_cell);
            let cell = update_cell(old_cell, view, world_pos, tick, config, rng, &mut events);
            let ghost before = grid.cells@;
            grid.cells.set(idx, cell);
            proof {
                assert forall|i: int| 0 <= i < n implies #[trigger] grid.next_wake_buffer@[i] == wake_level(
                    v,
                    g1.wake_buffer@,
                    grid.cells@,
                    i,
                    idx as int,
                ) by {
                    lemma_woken_prefix(v, g1.wake_buffer@, before, grid.cells@, i, idx as int);
                }
            }
            let changed = cell.0 != old_cell.0 || (cell.surface_mat().0 == SurfaceMat::SURFACE_FOLIAGE
                && cell.surface_state() < 10) || cell.surface_mat().0 == SurfaceMat::SURFACE_FIRE;
            assert(changed == counts_as_changed(cell, old_cell));
            if changed {
                wake_block(&mut grid.next_wake_buffer, view, world_pos);
            } else if wake_val > 1 {
                if grid.next_wake_buffer[idx] < wake_val - 1 {
                    grid.next_wake_buffer.set(idx, wake_val - 1);
                }
            }
        }
        idx = idx + 1;
    }
    assert(v == grid.back_model());
    grid.cells_dirty = true;
    proof {
        assert forall|j: int, k: int|
            #![trigger grid.cells@[j], ring_offset(k)]
            0 <= j < n && g1.wake_buffer@[j] != 0 && grid.cells@[j] != g1.cells@[j] && 0 <= k < 9 && v.in_window(
                shifted(slot_pos(v.width, v.height, v.origin, v.head, j), ring_offset(k)),
            ) implies grid.next_wake_buffer@[v.index_of(
                shifted(slot_pos(v.width, v.height, v.origin, v.head, j), ring_offset(k)),
            )] >= 2 by {
            let q = shifted(slot_pos(v.width, v.height, v.origin, v.head, j), ring_offset(k));
            v.lemma_slot_in_buffer(q);
            law_changes_wake_their_block(v, g1.wake_buffer@, grid.cells@, j, k);
        }
    }
    events
}

/// One world tick of an awake cell that held `old_cell`: the rules in order, each drawing
/// its chances from `rng` where it needs them.
fn update_cell(
    old_cell: WorldCell,
    view: GridReadView,
    world_pos: IVec2,
    tick: u32,
    config: &SimulationConfig,
    rng: &mut SmallRng,
    events: &mut Vec<GridEvent>,
) -> (r: WorldCell)
    requires
        view@.wf(),
        interior(world_pos, 3),
    ensures
        tick_outcome(r, old_cell, view@, world_pos, tick, *config),
        final(events)@ == old(events)@,
{
    let v = Ghost(view@);
    let mut cell = old_cell;
    let ghost c0 = cell@;
    if config.run_granular && tick % 2 != 0 {
        step_granular(&mut cell, &old_cell, view, world_pos, tick);
    }
    if config.run_liquid && tick % 2 == 0 {
        step_liquid(&mut cell, &old_cell, view, world_pos, tick);
    }
    let ghost c2 = cell@;
    let bio_gate = config.run_biology && random_ratio(rng, 1, 10);
    let ghost mut b1 = false;
    let ghost mut b2 = false;
    if bio_gate {
        step_biology(&mut cell, &old_cell, view, world_pos, rng, events);
        proof {
            let (x1, x2) = choose|x1: bool, x2: bool| cell@ == hydrated_biology_step(c2, old_cell, v@, world_pos, x1, x2);
            b1 = x1;
            b2 = x2;
        }
    }
    let ghost c3 = cell@;
    let fire_gate = config.run_fire && random_ratio(rng, 1, 2);
    let ghost mut fr = false;
    if fire_gate {
        step_fire(&mut cell, &old_cell, view, world_pos, rng, events);
        proof {
            fr = choose|x: bool| cell@ == fire_step(c3, old_cell, v@, world_pos, x);
        }
    }
    assert(cell@ == cell_update(old_cell, v@, world_pos, tick, *config, bio_gate, b1, b2, fire_gate, fr));
    cell
}

/// Keeps `world_pos` and its in-window neighbours awake for at least two more ticks.
fn wake_block(next_wake: &mut Vec<u8>, view: GridReadView, world_pos: IVec2)
    requires
        view@.wf(),
        interior(world_pos, 1),
        old(next_wake)@.len() == view@.cells.len(),
    ensures
        final(next_wake)@.len() == old(next_wake)@.len(),
        forall|i: int|
            0 <= i < old(next_wake)@.len() ==> #[trigger] final(next_wake)@[i] == (if block_hits_upto(
                view@,
                world_pos,
                i,
                9,
            ) {
                max_u8(old(next_wake)@[i] as int, 2)
            } else {
                old(next_wake)@[i] as int
            }),
{
    let ghost before = next_wake@;
    let mut k: u32 = 0;
    while k < 9
        invariant
            k <= 9,
            view@.wf(),
            interior(world_pos, 1),
            next_wake@.len() == before.len(),
            before.len() == view@.cells.len(),
            forall|i: int|
                0 <= i < before.len() ==> #[trigger] next_wake@[i] == (if block_hits_upto(view@, world_pos, i, k as int) {
                    max_u8(before[i] as int, 2)
                } else {
                    before[i] as int
                }),
        decreases 9 - k,
    {
        let n_pos = offset(world_pos, ring_offset_exec(k));
        if let Some(n_idx) = view.get_index(n_pos) {
            if next_wake[n_idx] < 2 {
                next_wake.set(n_idx, 2);
            }
        }
        k = k + 1;
    }
}

} // verus!
