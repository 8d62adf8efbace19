use vstd::prelude::*;
use vstd::arithmetic::div_mod::{
    lemma_add_mod_noop_right, lemma_fundamental_div_mod_converse, lemma_mod_bound,
    lemma_mod_equivalence, lemma_small_mod,
};
use crate::cell::WorldCell;
use crate::chunk::{ChunkKey, CHUNK_CELL_COUNT, CHUNK_SIZE};
use crate::geom::{wrap_i64, IVec2};

verus! {

/// Default horizontal radius, in chunks, of the active simulation window.
pub const DEFAULT_ACTIVE_RADIUS_X: u32 = 7;

/// Default vertical radius, in chunks, of the active simulation window.
pub const DEFAULT_ACTIVE_RADIUS_Y: u32 = 7;

/// `row * width + col` stays below `width * height` for an in-range row and column.
pub proof fn lemma_index_in_bounds(row: int, col: int, width: int, height: int)
    requires
        0 <= row < height,
        0 <= col < width,
    ensures
        0 <= row * width + col < width * height,
{
    assert(0 <= row * width + col < width * height) by (nonlinear_arith)
        requires
            0 <= row < height,
            0 <= col < width,
    ;
}

/// Two in-range (row, column) pairs land on the same flat index only when they are equal.
pub proof fn lemma_index_injective(r1: int, c1: int, r2: int, c2: int, width: int)
    requires
        0 <= c1 < width,
        0 <= c2 < width,
        0 <= r1,
        0 <= r2,
        r1 * width + c1 == r2 * width + c2,
    ensures
        r1 == r2,
        c1 == c2,
{
    lemma_fundamental_div_mod_converse(r1 * width + c1, width, r1, c1);
    lemma_fundamental_div_mod_converse(r2 * width + c2, width, r2, c2);
}

/// Values closer together than the modulus have distinct remainders.
pub proof fn lemma_mod_distinct(a: int, b: int, m: int)
    requires
        0 < m,
        a < b < a + m,
    ensures
        a % m != b % m,
{
    lemma_mod_equivalence(b, a, m);
    lemma_small_mod((b - a) as nat, m as nat);
}

/// The mathematical content of a toroidal cell buffer: its cells and its geometry.
pub ghost struct GridModel {
    pub cells: Seq<WorldCell>,
    pub width: int,
    pub height: int,
    pub origin: IVec2,
    pub head: IVec2,
}

impl GridModel {
    pub open spec fn wf(&self) -> bool {
        &&& self.width > 0
        &&& self.height > 0
        &&& self.width * self.height <= i32::MAX
        &&& self.cells.len() == self.width * self.height
        &&& 0 <= self.head.x < self.width
        &&& 0 <= self.head.y < self.height
    }

    /// Whether the world position `(x, y)` lies inside the window.
    pub open spec fn in_window_xy(&self, x: int, y: int) -> bool {
        &&& 0 <= x - self.origin.x < self.width
        &&& 0 <= y - self.origin.y < self.height
    }

    /// The buffer slot holding world position `(x, y)`; the buffer wraps around in both axes.
    #[verifier::opaque]
    pub open spec fn index_xy(&self, x: int, y: int) -> int {
        ((y - self.origin.y + self.head.y) % self.height) * self.width + ((x - self.origin.x + self.head.x)
            % self.width)
    }

    pub open spec fn in_window(&self, p: IVec2) -> bool {
        self.in_window_xy(p.x as int, p.y as int)
    }

    pub open spec fn index_of(&self, p: IVec2) -> int {
        self.index_xy(p.x as int, p.y as int)
    }

    /// The cell at `p`, when `p` lies in the window.
    pub open spec fn cell_at(&self, p: IVec2) -> Option<WorldCell> {
        if self.in_window(p) {
            Some(self.cells[self.index_of(p)])
        } else {
            None
        }
    }

    /// A position in the window has its slot inside the buffer.
    pub proof fn lemma_slot_in_buffer(&self, p: IVec2)
        requires
            self.wf(),
            self.in_window(p),
        ensures
            0 <= self.index_of(p) < self.cells.len(),
    {
        reveal(GridModel::index_xy);
        let w = self.width;
        let h = self.height;
        lemma_mod_bound(p.y - self.origin.y + self.head.y, h);
        lemma_mod_bound(p.x - self.origin.x + self.head.x, w);
        lemma_index_in_bounds(
            (p.y - self.origin.y + self.head.y) % h,
            (p.x - self.origin.x + self.head.x) % w,
            w,
            h,
        );
    }
}

/// A read-only view of a toroidal cell buffer, addressed by world position.
#[derive(Clone, Copy)]
pub struct GridReadView<'a> {
    pub cells: &'a [WorldCell],
    pub width: i32,
    pub height: i32,
    pub window_origin: IVec2,
    pub buffer_head: IVec2,
}

impl<'a> View for GridReadView<'a> {
    type V = GridModel;

    open spec fn view(&self) -> GridModel {
        GridModel {
            cells: self.cells@,
            width: self.width as int,
            height: self.height as int,
            origin: self.window_origin,
            head: self.buffer_head,
        }
    }
}

impl<'a> GridReadView<'a> {
    fn local_index(&self, world_pos: IVec2) -> (r: Option<usize>)
        requires
            self@.wf(),
        ensures
            r == (if self@.in_window(world_pos) {
                Some(self@.index_of(world_pos) as usize)
            } else {
                None::<usize>
            }),
            r matches Some(i) ==> i < self@.cells.len() && i == self@.index_of(world_pos),
    {
        reveal(GridModel::index_xy);
        let w = self.width as i64;
        let h = self.height as i64;
        let lx = world_pos.x as i64 - self.window_origin.x as i64;
        let ly = world_pos.y as i64 - self.window_origin.y as i64;
        if 0 <= lx && lx < w && 0 <= ly && ly < h {
            let mut bx = lx + self.buffer_head.x as i64;
            if bx >= w {
                bx = bx - w;
            }
            let mut by = ly + self.buffer_head.y as i64;
            if by >= h {
                by = by - h;
            }
            proof {
                lemma_wrap_once(lx + self.buffer_head.x, w as int);
                lemma_wrap_once(ly + self.buffer_head.y, h as int);
                lemma_index_in_bounds(by as int, bx as int, w as int, h as int);
            }
            Some((by * w + bx) as usize)
        } else {
            None
        }
    }

    /// The buffer slot of `world_pos`, or `None` outside the window.
    pub fn get_index(&self, world_pos: IVec2) -> (r: Option<usize>)
        requires
            self@.wf(),
        ensures
            r == (if self@.in_window(world_pos) {
                Some(self@.index_of(world_pos) as usize)
            } else {
                None::<usize>
            }),
            r matches Some(i) ==> i < self@.cells.len() && i == self@.index_of(world_pos),
    {
        self.local_index(world_pos)
    }

    /// The buffer slot and the cell at `world_pos`, or `None` outside the window.
    pub fn get_cell(&self, world_pos: IVec2) -> (r: Option<(usize, &'a WorldCell)>)
        requires
            self@.wf(),
        ensures
            match r {
                Some((i, c)) => self@.in_window(world_pos) && i == self@.index_of(world_pos) && i
                    < self@.cells.len() && *c == self@.cells[i as int],
                None => !self@.in_window(world_pos),
            },
    {
        match self.local_index(world_pos) {
            Some(idx) => Some((idx, &self.cells[idx])),
            None => None,
        }
    }
}

/// A value in `[0, 2m)` reduced once by `m` is its remainder.
pub proof fn lemma_wrap_once(a: int, m: int)
    requires
        0 < m,
        0 <= a < 2 * m,
    ensures
        a % m == (if a >= m {
            a - m
        } else {
            a
        }),
{
    if a >= m {
        lemma_fundamental_div_mod_converse(a, m, 1, a - m);
    } else {
        lemma_fundamental_div_mod_converse(a, m, 0, a);
    }
}

/// The double-buffered toroidal grid on which the cellular automata run.
pub struct ActiveWorldGrid {
    pub width: i32,
    pub height: i32,
    pub cells: Vec<WorldCell>,
    pub back_buffer: Vec<WorldCell>,
    pub wake_buffer: Vec<u8>,
    pub next_wake_buffer: Vec<u8>,
    pub window_origin: IVec2,
    pub buffer_head: IVec2,
    pub cells_dirty: bool,
    pub tick: u32,
}

impl Default for ActiveWorldGrid {
    /// An empty grid spanning the default active window, centred on chunk (0, 0).
    fn default() -> (r: Self)
        ensures
            r.wf(),
            r.width == 960,
            r.height == 960,
            r.window_origin.x == -448,
            r.window_origin.y == -448,
            r.buffer_head == (IVec2 { x: 0, y: 0 }),
            r.cells_dirty,
            r.tick == 0,
            r.is_fresh(),
    {
        let span_chunks_x = (DEFAULT_ACTIVE_RADIUS_X * 2 + 1) as i32;
        let span_chunks_y = (DEFAULT_ACTIVE_RADIUS_Y * 2 + 1) as i32;
        assert(span_chunks_x == 15 && span_chunks_y == 15);
        assert(CHUNK_SIZE as i32 == 64);
        let width = span_chunks_x * (CHUNK_SIZE as i32);
        let height = span_chunks_y * (CHUNK_SIZE as i32);
        let origin_chunk_x = -(DEFAULT_ACTIVE_RADIUS_X as i32);
        let origin_chunk_y = -(DEFAULT_ACTIVE_RADIUS_Y as i32);
        let window_origin = IVec2::new(origin_chunk_x * (CHUNK_SIZE as i32), origin_chunk_y * (CHUNK_SIZE as i32));
        Self::new(width, height, window_origin)
    }
}

/// World position of cell `k` of the chunk whose lower corner is `(bx, by)`.
pub open spec fn chunk_cell_x(bx: int, k: int) -> int {
    bx + k % 64
}

pub open spec fn chunk_cell_y(by: int, k: int) -> int {
    by + k / 64
}

impl ActiveWorldGrid {
    pub open spec fn wf(&self) -> bool {
        &&& self.width > 0
        &&& self.height > 0
        &&& self.width * self.height <= i32::MAX
        &&& self.cells@.len() == self.width * self.height
        &&& self.back_buffer@.len() == self.width * self.height
        &&& self.wake_buffer@.len() == self.width * self.height
        &&& self.next_wake_buffer@.len() == self.width * self.height
        &&& 0 <= self.buffer_head.x < self.width
        &&& 0 <= self.buffer_head.y < self.height
    }

    /// The back buffer with this grid's geometry.
    pub open spec fn back_model(&self) -> GridModel {
        GridModel {
            cells: self.back_buffer@,
            width: self.width as int,
            height: self.height as int,
            origin: self.window_origin,
            head: self.buffer_head,
        }
    }

    /// Every cell empty, and every cell asleep now and awake on the next tick.
    pub open spec fn is_fresh(&self) -> bool {
        forall|i: int|
            #![trigger self.cells@[i]]
            0 <= i < self.size() ==> self.cells@[i].0 == 0 && self.back_buffer@[i].0 == 0
            && self.wake_buffer@[i] == 0 && self.next_wake_buffer@[i] == 2
    }

    pub open spec fn size(&self) -> int {
        self.width * self.height
    }

    pub open spec fn in_window_xy(&self, x: int, y: int) -> bool {
        &&& 0 <= x - self.window_origin.x < self.width
        &&& 0 <= y - self.window_origin.y < self.height
    }

    /// The buffer slot holding world position `(x, y)`; the buffer wraps around in both axes.
    pub open spec fn index_xy(&self, x: int, y: int) -> int {
        ((y - self.window_origin.y + self.buffer_head.y) % (self.height as int)) * self.width + ((x
            - self.window_origin.x + self.buffer_head.x) % (self.width as int))
    }

    pub open spec fn index_of(&self, p: IVec2) -> int {
        self.index_xy(p.x as int, p.y as int)
    }

    pub open spec fn in_window(&self, p: IVec2) -> bool {
        self.in_window_xy(p.x as int, p.y as int)
    }

    /// Whether waking `p` marks buffer slot `i`: `p` is in the window, and `i` holds
    /// `p` or one of its eight neighbours that is in the window too.
    pub open spec fn wake_hits(&self, p: IVec2, i: int) -> bool {
        &&& self.in_window(p)
        &&& exists|j: int|
            0 <= j < 9 && #[trigger] self.in_window_xy(p.x + j % 3 - 1, p.y + j / 3 - 1)
                && self.index_xy(p.x + j % 3 - 1, p.y + j / 3 - 1) == i
    }

    /// Whether one of the first `n` of the nine offsets around `p` is in the window and lands on slot `i`.
    pub open spec fn wake_hits_upto(&self, p: IVec2, i: int, n: int) -> bool
        decreases n,
    {
        if n <= 0 {
            false
        } else {
            self.wake_hits_upto(p, i, n - 1) || (self.in_window_xy(p.x + (n - 1) % 3 - 1, p.y + (n - 1) / 3 - 1)
                && self.index_xy(p.x + (n - 1) % 3 - 1, p.y + (n - 1) / 3 - 1) == i)
        }
    }

    proof fn lemma_wake_hits_upto(&self, p: IVec2, i: int, n: int)
        requires
            0 <= n <= 9,
        ensures
            self.wake_hits_upto(p, i, n) == exists|j: int|
                0 <= j < n && #[trigger] self.in_window_xy(p.x + j % 3 - 1, p.y + j / 3 - 1)
                    && self.index_xy(p.x + j % 3 - 1, p.y + j / 3 - 1) == i,
        decreases n,
    {
        if n > 0 {
            self.lemma_wake_hits_upto(p, i, n - 1);
            if self.in_window_xy(p.x + (n - 1) % 3 - 1, p.y + (n - 1) / 3 - 1) && self.index_xy(
                p.x + (n - 1) % 3 - 1,
                p.y + (n - 1) / 3 - 1,
            ) == i {
                assert(self.in_window_xy(p.x + (n - 1) % 3 - 1, p.y + (n - 1) / 3 - 1));
            }
        }
    }

    /// The last of the first `n` cells of the chunk at `(bx, by)` that lands on slot `i`.
    pub open spec fn last_writer(&self, bx: int, by: int, i: int, n: int) -> Option<int>
        decreases n,
    {
        if n <= 0 {
            None
        } else if self.index_xy(chunk_cell_x(bx, n - 1), chunk_cell_y(by, n - 1)) == i {
            Some(n - 1)
        } else {
            self.last_writer(bx, by, i, n - 1)
        }
    }

    /// The cell buffer after writing the chunk `chunk` with lower corner `(bx, by)` into `cells`.
    pub open spec fn loaded_cells(&self, cells: Seq<WorldCell>, bx: int, by: int, chunk: Seq<WorldCell>) -> Seq<
        WorldCell,
    > {
        Seq::new(
            cells.len(),
            |i: int|
                match self.last_writer(bx, by, i, 4096) {
                    Some(k) => chunk[k],
                    None => cells[i],
                },
        )
    }

    /// The chunk with lower corner `(bx, by)` as read out of `cells`.
    pub open spec fn chunk_of(&self, cells: Seq<WorldCell>, bx: int, by: int) -> Seq<WorldCell> {
        Seq::new(4096, |k: int| cells[self.index_xy(chunk_cell_x(bx, k), chunk_cell_y(by, k))])
    }

    pub proof fn lemma_index_bounds(&self, x: int, y: int)
        requires
            self.wf(),
        ensures
            0 <= self.index_xy(x, y) < self.size(),
    {
        let w = self.width as int;
        let h = self.height as int;
        lemma_mod_bound(y - self.window_origin.y + self.buffer_head.y, h);
        lemma_mod_bound(x - self.window_origin.x + self.buffer_head.x, w);
        lemma_index_in_bounds(
            (y - self.window_origin.y + self.buffer_head.y) % h,
            (x - self.window_origin.x + self.buffer_head.x) % w,
            w,
            h,
        );
    }

    fn index_from(&self, x: i64, y: i64) -> (r: usize)
        requires
            self.wf(),
            -0x1_0000_0000 < x < 0x1_0000_0000,
            -0x1_0000_0000 < y < 0x1_0000_0000,
        ensures
            r == self.index_xy(x as int, y as int),
            r < self.size(),
    {
        let w = self.width as i64;
        let h = self.height as i64;
        let bx = wrap_i64(x - self.window_origin.x as i64 + self.buffer_head.x as i64, w);
        let by = wrap_i64(y - self.window_origin.y as i64 + self.buffer_head.y as i64, h);
        proof {
            self.lemma_index_bounds(x as int, y as int);
            lemma_index_in_bounds(by as int, bx as int, w as int, h as int);
        }
        (by * w + bx) as usize
    }

    /// Creates a grid of `width * height` empty cells whose window starts at `origin`.
    /// All cells start asleep in the current wake buffer and awake in the next one.
    pub fn new(width: i32, height: i32, origin: IVec2) -> (r: Self)
        requires
            width > 0,
            height > 0,
            width * height <= i32::MAX,
        ensures
            r.wf(),
            r.width == width,
            r.height == height,
            r.window_origin == origin,
            r.buffer_head == (IVec2 { x: 0, y: 0 }),
            r.cells_dirty,
            r.tick == 0,
            r.is_fresh(),
    {
        let size = (width * height) as usize;
        let cells = vec![WorldCell(0); size];
        let back_buffer = vec![WorldCell(0); size];
        let wake_buffer = vec![0u8; size];
        let next_wake_buffer = vec![2u8; size];
        ActiveWorldGrid {
            width,
            height,
            cells,
            back_buffer,
            wake_buffer,
            next_wake_buffer,
            window_origin: origin,
            buffer_head: IVec2::zero(),
            cells_dirty: true,
            tick: 0,
        }
    }

    /// Buffer coordinates of flat slot `index` in rows of `width`.
    pub fn index_to_pos(index: usize, width: i32) -> (r: IVec2)
        requires
            width > 0,
            index <= i32::MAX,
        ensures
            r.x == index as int % width as int,
            r.y == index as int / width as int,
    {
        let i = index as u32;
        let w = width as u32;
        IVec2 { x: (i % w) as i32, y: (i / w) as i32 }
    }

    /// A read-only view over the back buffer, with this grid's geometry.
    pub fn back_buffer_view(&self) -> (r: GridReadView<'_>)
        requires
            self.wf(),
        ensures
            r@ == self.back_model(),
            r@.wf(),
    {
        GridReadView {
            cells: self.back_buffer.as_slice(),
            width: self.width,
            height: self.height,
            window_origin: self.window_origin,
            buffer_head: self.buffer_head,
        }
    }

    /// Starts a new tick: the current cells become the back buffer (and stay current),
    /// the next wake buffer becomes current and the new next wake buffer is cleared.
    pub fn swap_buffers(&mut self)
        requires
            old(self).wf(),
        ensures
            final(self).wf(),
            final(self).cells@ == old(self).cells@,
            final(self).back_buffer@ == old(self).cells@,
            final(self).wake_buffer@ == old(self).next_wake_buffer@,
            forall|i: int| 0 <= i < old(self).size() ==> final(self).next_wake_buffer@[i] == 0,
            final(self).tick == old(self).tick.wrapping_add(1),
            final(self).width == old(self).width,
            final(self).height == old(self).height,
            final(self).window_origin == old(self).window_origin,
            final(self).buffer_head == old(self).buffer_head,
            final(self).cells_dirty == old(self).cells_dirty,
    {
        let ghost before = *self;
        std::mem::swap(&mut self.cells, &mut self.back_buffer);
        let n = self.cells.len();
        let mut i: usize = 0;
        while i < n
            invariant
                before.wf(),
                self.width == before.width,
                self.height == before.height,
                self.window_origin == before.window_origin,
                self.buffer_head == before.buffer_head,
                self.cells_dirty == before.cells_dirty,
                self.tick == before.tick,
                self.wake_buffer@ == before.wake_buffer@,
                self.next_wake_buffer@ == before.next_wake_buffer@,
                n == before.size(),
                n == self.cells@.len(),
                self.back_buffer@.len() == n,
                self.back_buffer@ == old(self).cells@,
                i <= n,
                forall|j: int| 0 <= j < i ==> self.cells@[j] == self.back_buffer@[j],
            decreases n - i,
        {
            let c = self.back_buffer[i];
            self.cells.set(i, c);
            i = i + 1;
        }
        assert(self.cells@ =~= self.back_buffer@);
        std::mem::swap(&mut self.wake_buffer, &mut self.next_wake_buffer);
        let m = self.next_wake_buffer.len();
        let mut k: usize = 0;
        while k < m
            invariant
                before.wf(),
                self.width == before.width,
                self.height == before.height,
                self.window_origin == before.window_origin,
                self.buffer_head == before.buffer_head,
                self.cells_dirty == before.cells_dirty,
                self.tick == before.tick,
                self.cells@ == before.cells@,
                self.back_buffer@ == before.cells@,
                self.wake_buffer@ == before.next_wake_buffer@,
                m == before.size(),
                m == self.next_wake_buffer@.len(),
                k <= m,
                forall|j: int| 0 <= j < k ==> self.next_wake_buffer@[j] == 0,
            decreases m - k,
        {
            self.next_wake_buffer.set(k, 0);
            k = k + 1;
        }
        self.tick = self.tick.wrapping_add(1);
    }

    /// Moves the window's lower corner to `new_origin` without moving any cell:
    /// the buffer head turns by the same amount, so every world position keeps its slot.
    pub fn shift_window(&mut self, new_origin: IVec2)
        requires
            old(self).wf(),
        ensures
            final(self).wf(),
            final(self).window_origin == new_origin,
            forall|x: int, y: int| #[trigger] final(self).index_xy(x, y) == old(self).index_xy(x, y),
            final(self).cells@ == old(self).cells@,
            final(self).back_buffer@ == old(self).back_buffer@,
            final(self).wake_buffer@ == old(self).wake_buffer@,
            final(self).next_wake_buffer@ == old(self).next_wake_buffer@,
            final(self).width == old(self).width,
            final(self).height == old(self).height,
            final(self).cells_dirty == old(self).cells_dirty,
            final(self).tick == old(self).tick,
    {
        let w = self.width as i64;
        let h = self.height as i64;
        let hx = wrap_i64(self.buffer_head.x as i64 + new_origin.x as i64 - self.window_origin.x as i64, w);
        let hy = wrap_i64(self.buffer_head.y as i64 + new_origin.y as i64 - self.window_origin.y as i64, h);
        let ghost before = *self;
        self.buffer_head = IVec2 { x: hx as i32, y: hy as i32 };
        self.window_origin = new_origin;
        assert forall|x: int, y: int| #[trigger] self.index_xy(x, y) == before.index_xy(x, y) by {
            lemma_add_mod_noop_right(
                x - new_origin.x,
                before.buffer_head.x + new_origin.x - before.window_origin.x,
                w as int,
            );
            lemma_add_mod_noop_right(
                y - new_origin.y,
                before.buffer_head.y + new_origin.y - before.window_origin.y,
                h as int,
            );
            assert(x - new_origin.x + (before.buffer_head.x + new_origin.x - before.window_origin.x) == x
                - before.window_origin.x + before.buffer_head.x);
            assert(y - new_origin.y + (before.buffer_head.y + new_origin.y - before.window_origin.y) == y
                - before.window_origin.y + before.buffer_head.y);
        }
    }

    /// The buffer slot of `world_pos`.
    pub fn get_index(&self, world_pos: IVec2) -> (r: usize)
        requires
            self.wf(),
        ensures
            r == self.index_of(world_pos),
            r < self.size(),
    {
        self.index_from(world_pos.x as i64, world_pos.y as i64)
    }

    /// The current cell at `world_pos`.
    pub fn get_cell(&self, world_pos: IVec2) -> (r: WorldCell)
        requires
            self.wf(),
        ensures
            r == self.cells@[self.index_of(world_pos)],
    {
        self.cells[self.get_index(world_pos)]
    }

    /// Writes `cell` at `world_pos` and marks the cells dirty.
    pub fn set_cell(&mut self, world_pos: IVec2, cell: WorldCell)
        requires
            old(self).wf(),
        ensures
            final(self).wf(),
            final(self).cells@ == old(self).cells@.update(old(self).index_of(world_pos), cell),
            final(self).cells_dirty,
            final(self).back_buffer@ == old(self).back_buffer@,
            final(self).wake_buffer@ == old(self).wake_buffer@,
            final(self).next_wake_buffer@ == old(self).next_wake_buffer@,
            final(self).width == old(self).width,
            final(self).height == old(self).height,
            final(self).window_origin == old(self).window_origin,
            final(self).buffer_head == old(self).buffer_head,
            final(self).tick == old(self).tick,
    {
        let index = self.get_index(world_pos);
        self.cells.set(index, cell);
        self.cells_dirty = true;
    }

    /// Keeps `world_pos` and its in-window neighbours awake for at least two more ticks.
    pub fn wake_cell(&mut self, world_pos: IVec2)
        requires
            old(self).wf(),
        ensures
            final(self).wf(),
            forall|i: int|
                0 <= i < old(self).size() ==> #[trigger] final(self).next_wake_buffer@[i] == (if old(
                    self,
                ).wake_hits(world_pos, i) {
                    if old(self).next_wake_buffer@[i] < 2 {
                        2
                    } else {
                        old(self).next_wake_buffer@[i]
                    }
                } else {
                    old(self).next_wake_buffer@[i]
                }),
            final(self).cells@ == old(self).cells@,
            final(self).back_buffer@ == old(self).back_buffer@,
            final(self).wake_buffer@ == old(self).wake_buffer@,
            final(self).width == old(self).width,
            final(self).height == old(self).height,
            final(self).window_origin == old(self).window_origin,
            final(self).buffer_head == old(self).buffer_head,
            final(self).cells_dirty == old(self).cells_dirty,
            final(self).tick == old(self).tick,
    {
        let ghost before = *self;
        let w = self.width as i64;
        let h = self.height as i64;
        let lx = world_pos.x as i64 - self.window_origin.x as i64;
        let ly = world_pos.y as i64 - self.window_origin.y as i64;
        if 0 <= lx && lx < w && 0 <= ly && ly < h {
            let mut j: i64 = 0;
            while j < 9
                invariant
                    0 <= j <= 9,
                    self.wf(),
                    before.wf(),
                    self.cells@ == before.cells@,
                    self.back_buffer@ == before.back_buffer@,
                    self.wake_buffer@ == before.wake_buffer@,
                    self.width == before.width,
                    self.height == before.height,
                    self.window_origin == before.window_origin,
                    self.buffer_head == before.buffer_head,
                    self.cells_dirty == before.cells_dirty,
                    self.tick == before.tick,
                    w == self.width,
                    h == self.height,
                    before.in_window(world_pos),
                    forall|i: int|
                        0 <= i < before.size() ==> #[trigger] self.next_wake_buffer@[i] == (if before.wake_hits_upto(
                            world_pos,
                            i,
                            j as int,
                        ) {
                            if before.next_wake_buffer@[i] < 2 {
                                2
                            } else {
                                before.next_wake_buffer@[i]
                            }
                        } else {
                            before.next_wake_buffer@[i]
                        }),
                decreases 9 - j,
            {
                let nx = world_pos.x as i64 + j % 3 - 1;
                let ny = world_pos.y as i64 + j / 3 - 1;
                let nlx = nx - self.window_origin.x as i64;
                let nly = ny - self.window_origin.y as i64;
                if 0 <= nlx && nlx < w && 0 <= nly && nly < h {
                    let n_idx = self.index_from(nx, ny);
                    if self.next_wake_buffer[n_idx] < 2 {
                        self.next_wake_buffer.set(n_idx, 2);
                    }
                }
                j = j + 1;
            }
            assert forall|i: int| 0 <= i < before.size() implies #[trigger] before.wake_hits_upto(world_pos, i, 9)
                == before.wake_hits(world_pos, i) by {
                before.lemma_wake_hits_upto(world_pos, i, 9);
            }
        } else {
            assert forall|i: int| 0 <= i < before.size() implies !#[trigger] before.wake_hits(world_pos, i) by {}
        }
    }

    /// Copies the 64 x 64 cells of `chunk_cells` into the window at `chunk_key` and wakes them.
    /// Where the grid is narrower than a chunk, later cells of the chunk overwrite earlier ones.
    pub fn load_chunk(&mut self, chunk_key: ChunkKey, chunk_cells: &[WorldCell])
        requires
            old(self).wf(),
            chunk_cells@.len() == CHUNK_CELL_COUNT,
            i32::MIN <= chunk_key.key.x * 64,
            chunk_key.key.x * 64 + 63 <= i32::MAX,
            i32::MIN <= chunk_key.key.y * 64,
            chunk_key.key.y * 64 + 63 <= i32::MAX,
        ensures
            final(self).wf(),
            final(self).cells@ == old(self).loaded_cells(
                old(self).cells@,
                chunk_key.key.x * 64,
                chunk_key.key.y * 64,
                chunk_cells@,
            ),
            forall|i: int|
                0 <= i < old(self).size() ==> #[trigger] final(self).next_wake_buffer@[i] == (if old(
                    self,
                ).last_writer(chunk_key.key.x * 64, chunk_key.key.y * 64, i, 4096) is Some {
                    2
                } else {
                    old(self).next_wake_buffer@[i]
                }),
            final(self).cells_dirty,
            final(self).back_buffer@ == old(self).back_buffer@,
            final(self).wake_buffer@ == old(self).wake_buffer@,
            final(self).width == old(self).width,
            final(self).height == old(self).height,
            final(self).window_origin == old(self).window_origin,
            final(self).buffer_head == old(self).buffer_head,
            final(self).tick == old(self).tick,
    {
        let ghost before = *self;
        let ghost bx = chunk_key.key.x * 64;
        let ghost by = chunk_key.key.y * 64;
        let origin = chunk_key.to_ivec2();
        let ox = origin.x as i64 * CHUNK_SIZE as i64;
        let oy = origin.y as i64 * CHUNK_SIZE as i64;
        let mut k: usize = 0;
        while k < CHUNK_CELL_COUNT
            invariant
                k <= CHUNK_CELL_COUNT,
                chunk_cells@.len() == CHUNK_CELL_COUNT,
                ox == bx,
                oy == by,
                i32::MIN <= bx,
                bx + 63 <= i32::MAX,
                i32::MIN <= by,
                by + 63 <= i32::MAX,
                self.wf(),
                before.wf(),
                self.back_buffer@ == before.back_buffer@,
                self.wake_buffer@ == before.wake_buffer@,
                self.width == before.width,
                self.height == before.height,
                self.window_origin == before.window_origin,
                self.buffer_head == before.buffer_head,
                self.tick == before.tick,
                self.cells@ == before.loaded_cells_upto(before.cells@, bx, by, chunk_cells@, k as int),
                forall|i: int|
                    0 <= i < before.size() ==> #[trigger] self.next_wake_buffer@[i] == (if before.last_writer(
                        bx,
                        by,
                        i,
                        k as int,
                    ) is Some {
                        2
                    } else {
                        before.next_wake_buffer@[i]
                    }),
            decreases CHUNK_CELL_COUNT - k,
        {
            let x = ox + (k % CHUNK_SIZE) as i64;
            let y = oy + (k / CHUNK_SIZE) as i64;
            let buffer_idx = self.index_from(x, y);
            let c = chunk_cells[k];
            self.cells.set(buffer_idx, c);
            self.next_wake_buffer.set(buffer_idx, 2);
            assert(self.cells@ =~= before.loaded_cells_upto(before.cells@, bx, by, chunk_cells@, k + 1));
            k = k + 1;
        }
        assert(self.cells@ =~= before.loaded_cells(before.cells@, bx, by, chunk_cells@));
        self.cells_dirty = true;
    }

    /// The buffer after writing the first `n` cells of a chunk.
    pub open spec fn loaded_cells_upto(
        &self,
        cells: Seq<WorldCell>,
        bx: int,
        by: int,
        chunk: Seq<WorldCell>,
        n: int,
    ) -> Seq<WorldCell> {
        Seq::new(
            cells.len(),
            |i: int|
                match self.last_writer(bx, by, i, n) {
                    Some(k) => chunk[k],
                    None => cells[i],
                },
        )
    }

    /// Copies the 64 x 64 cells of the window at `chunk_key` into `dest`, row by row.
    pub fn extract_chunk_into(&self, chunk_key: ChunkKey, dest: &mut [WorldCell])
        requires
            self.wf(),
            old(dest)@.len() == CHUNK_CELL_COUNT,
            i32::MIN <= chunk_key.key.x * 64,
            chunk_key.key.x * 64 + 63 <= i32::MAX,
            i32::MIN <= chunk_key.key.y * 64,
            chunk_key.key.y * 64 + 63 <= i32::MAX,
        ensures
            final(dest)@ == self.chunk_of(self.cells@, chunk_key.key.x * 64, chunk_key.key.y * 64),
    {
        let ghost bx = chunk_key.key.x * 64;
        let ghost by = chunk_key.key.y * 64;
        let origin = chunk_key.to_ivec2();
        let ox = origin.x as i64 * CHUNK_SIZE as i64;
        let oy = origin.y as i64 * CHUNK_SIZE as i64;
        let mut k: usize = 0;
        while k < CHUNK_CELL_COUNT
            invariant
                k <= CHUNK_CELL_COUNT,
                dest@.len() == CHUNK_CELL_COUNT,
                ox == bx,
                oy == by,
                i32::MIN <= bx,
                bx + 63 <= i32::MAX,
                i32::MIN <= by,
                by + 63 <= i32::MAX,
                self.wf(),
                forall|j: int| 0 <= j < k ==> dest@[j] == self.chunk_of(self.cells@, bx, by)[j],
            decreases CHUNK_CELL_COUNT - k,
        {
            let x = ox + (k % CHUNK_SIZE) as i64;
            let y = oy + (k / CHUNK_SIZE) as i64;
            let buffer_idx = self.index_from(x, y);
            let c = self.cells[buffer_idx];
            dest[k] = c;
            k = k + 1;
        }
        assert(dest@ =~= self.chunk_of(self.cells@, bx, by));
    }

    /// Replaces all buffers with `new_width * new_height` empty cells (all waking next tick)
    /// and resets the window to `new_origin`.
    pub fn resize_in_place(&mut self, new_width: i32, new_height: i32, new_origin: IVec2)
        requires
            new_width > 0,
            new_height > 0,
            new_width * new_height <= i32::MAX,
        ensures
            final(self).wf(),
            final(self).width == new_width,
            final(self).height == new_height,
            final(self).window_origin == new_origin,
            final(self).buffer_head == (IVec2 { x: 0, y: 0 }),
            final(self).cells_dirty,
            final(self).tick == old(self).tick,
            final(self).is_fresh(),
    {
        let new_size = (new_width * new_height) as usize;
        self.cells.clear();
        self.cells.resize(new_size, WorldCell(0));
        self.back_buffer.clear();
        self.back_buffer.resize(new_size, WorldCell(0));
        self.wake_buffer.clear();
        self.wake_buffer.resize(new_size, 0u8);
        self.next_wake_buffer.clear();
        self.next_wake_buffer.resize(new_size, 2u8);
        self.width = new_width;
        self.height = new_height;
        self.window_origin = new_origin;
        self.buffer_head = IVec2::zero();
        self.cells_dirty = true;
    }

    /// Rebuilds the back buffer and both wake buffers at the size of the cell buffer: the back
    /// buffer empty, every slot asleep now and awake on the next tick. The cells stay.
    pub fn resize_buffers(&mut self)
        requires
            old(self).width > 0,
            old(self).height > 0,
            old(self).width * old(self).height <= i32::MAX,
            old(self).cells@.len() == old(self).width * old(self).height,
            0 <= old(self).buffer_head.x < old(self).width,
            0 <= old(self).buffer_head.y < old(self).height,
        ensures
            final(self).wf(),
            final(self).cells@ == old(self).cells@,
            final(self).width == old(self).width,
            final(self).height == old(self).height,
            final(self).window_origin == old(self).window_origin,
            final(self).buffer_head == old(self).buffer_head,
            final(self).tick == old(self).tick,
            final(self).cells_dirty,
            forall|i: int|
                #![trigger final(self).back_buffer@[i]]
                0 <= i < final(self).size() ==> final(self).back_buffer@[i].0 == 0 && final(self).wake_buffer@[i] == 0
                    && final(self).next_wake_buffer@[i] == 2,
    {
        let new_size = (self.width * self.height) as usize;
        self.back_buffer.clear();
        self.back_buffer.resize(new_size, WorldCell(0));
        self.wake_buffer.clear();
        self.wake_buffer.resize(new_size, 0u8);
        self.next_wake_buffer.clear();
        self.next_wake_buffer.resize(new_size, 2u8);
        self.cells_dirty = true;
    }
}

impl ActiveWorldGrid {
    proof fn lemma_chunk_slots_distinct(&self, bx: int, by: int, k1: int, k2: int)
        requires
            self.wf(),
            self.width >= 64,
            self.height >= 64,
            0 <= k1 < 4096,
            0 <= k2 < 4096,
            k1 != k2,
        ensures
            self.index_xy(chunk_cell_x(bx, k1), chunk_cell_y(by, k1)) != self.index_xy(
                chunk_cell_x(bx, k2),
                chunk_cell_y(by, k2),
            ),
    {
        let w = self.width as int;
        let h = self.height as int;
        let ax1 = chunk_cell_x(bx, k1) - self.window_origin.x + self.buffer_head.x;
        let ax2 = chunk_cell_x(bx, k2) - self.window_origin.x + self.buffer_head.x;
        let ay1 = chunk_cell_y(by, k1) - self.window_origin.y + self.buffer_head.y;
        let ay2 = chunk_cell_y(by, k2) - self.window_origin.y + self.buffer_head.y;
        lemma_mod_bound(ax1, w);
        lemma_mod_bound(ax2, w);
        lemma_mod_bound(ay1, h);
        lemma_mod_bound(ay2, h);
        if self.index_xy(chunk_cell_x(bx, k1), chunk_cell_y(by, k1)) == self.index_xy(
            chunk_cell_x(bx, k2),
            chunk_cell_y(by, k2),
        ) {
            lemma_index_injective(ay1 % h, ax1 % w, ay2 % h, ax2 % w, w);
            if k1 / 64 != k2 / 64 {
                if ay1 < ay2 {
                    lemma_mod_distinct(ay1, ay2, h);
                } else {
                    lemma_mod_distinct(ay2, ay1, h);
                }
            } else {
                assert(k1 % 64 != k2 % 64);
                if ax1 < ax2 {
                    lemma_mod_distinct(ax1, ax2, w);
                } else {
                    lemma_mod_distinct(ax2, ax1, w);
                }
            }
        }
    }

    proof fn lemma_last_writer_is(&self, bx: int, by: int, k: int, n: int)
        requires
            self.wf(),
            self.width >= 64,
            self.height >= 64,
            0 <= k < n <= 4096,
        ensures
            self.last_writer(bx, by, self.index_xy(chunk_cell_x(bx, k), chunk_cell_y(by, k)), n) == Some(k),
        decreases n,
    {
        if n - 1 > k {
            self.lemma_chunk_slots_distinct(bx, by, k, n - 1);
            self.lemma_last_writer_is(bx, by, k, n - 1);
        }
    }

    /// Whether the chunk whose lower corner is `(bx, by)` lies wholly inside the window.
    pub open spec fn covers_chunk_xy(&self, bx: int, by: int) -> bool {
        &&& self.in_window_xy(bx, by)
        &&& self.in_window_xy(bx + 63, by + 63)
    }

    /// Two distinct positions of the window never share a slot.
    pub proof fn lemma_window_slots_distinct(&self, x1: int, y1: int, x2: int, y2: int)
        requires
            self.wf(),
            self.in_window_xy(x1, y1),
            self.in_window_xy(x2, y2),
            x1 != x2 || y1 != y2,
        ensures
            self.index_xy(x1, y1) != self.index_xy(x2, y2),
    {
        let w = self.width as int;
        let h = self.height as int;
        let ax1 = x1 - self.window_origin.x + self.buffer_head.x;
        let ax2 = x2 - self.window_origin.x + self.buffer_head.x;
        let ay1 = y1 - self.window_origin.y + self.buffer_head.y;
        let ay2 = y2 - self.window_origin.y + self.buffer_head.y;
        lemma_mod_bound(ax1, w);
        lemma_mod_bound(ax2, w);
        lemma_mod_bound(ay1, h);
        lemma_mod_bound(ay2, h);
        if self.index_xy(x1, y1) == self.index_xy(x2, y2) {
            lemma_index_injective(ay1 % h, ax1 % w, ay2 % h, ax2 % w, w);
            if y1 != y2 {
                if ay1 < ay2 {
                    lemma_mod_distinct(ay1, ay2, h);
                } else {
                    lemma_mod_distinct(ay2, ay1, h);
                }
            } else {
                if ax1 < ax2 {
                    lemma_mod_distinct(ax1, ax2, w);
                } else {
                    lemma_mod_distinct(ax2, ax1, w);
                }
            }
        }
    }

    proof fn lemma_last_writer_none(&self, bx: int, by: int, i: int, n: int)
        requires
            forall|k: int| 0 <= k < n ==> #[trigger] self.index_xy(chunk_cell_x(bx, k), chunk_cell_y(by, k)) != i,
        ensures
            self.last_writer(bx, by, i, n) is None,
        decreases n,
    {
        if n > 0 {
            self.lemma_last_writer_none(bx, by, i, n - 1);
        }
    }

    /// Loading a chunk that lies in the window leaves every other chunk of the window as it was.
    pub proof fn law_load_spares_other_chunks(
        &self,
        cells: Seq<WorldCell>,
        bx: int,
        by: int,
        chunk: Seq<WorldCell>,
        cx: int,
        cy: int,
    )
        requires
            self.wf(),
            cells.len() == self.size(),
            self.covers_chunk_xy(bx, by),
            self.covers_chunk_xy(cx, cy),
            bx + 64 <= cx || cx + 64 <= bx || by + 64 <= cy || cy + 64 <= by,
        ensures
            self.chunk_of(self.loaded_cells(cells, bx, by, chunk), cx, cy) == self.chunk_of(cells, cx, cy),
    {
        assert forall|k2: int| 0 <= k2 < 4096 implies #[trigger] self.chunk_of(
            self.loaded_cells(cells, bx, by, chunk),
            cx,
            cy,
        )[k2] == self.chunk_of(cells, cx, cy)[k2] by {
            let x2 = chunk_cell_x(cx, k2);
            let y2 = chunk_cell_y(cy, k2);
            assert(0 <= k2 / 64 < 64);
            assert forall|k1: int| 0 <= k1 < 4096 implies #[trigger] self.index_xy(
                chunk_cell_x(bx, k1),
                chunk_cell_y(by, k1),
            ) != self.index_xy(x2, y2) by {
                assert(0 <= k1 / 64 < 64);
                self.lemma_window_slots_distinct(chunk_cell_x(bx, k1), chunk_cell_y(by, k1), x2, y2);
            }
            self.lemma_last_writer_none(bx, by, self.index_xy(x2, y2), 4096);
            self.lemma_index_bounds(x2, y2);
        }
        assert(self.chunk_of(self.loaded_cells(cells, bx, by, chunk), cx, cy) =~= self.chunk_of(cells, cx, cy));
    }

    /// On a grid at least one chunk wide and one chunk high, reading a chunk back right
    /// after loading it gives exactly the loaded cells.
    pub proof fn law_chunk_round_trip(&self, cells: Seq<WorldCell>, bx: int, by: int, chunk: Seq<WorldCell>)
        requires
            self.wf(),
            self.width >= 64,
            self.height >= 64,
            cells.len() == self.size(),
            chunk.len() == 4096,
        ensures
            self.chunk_of(self.loaded_cells(cells, bx, by, chunk), bx, by) == chunk,
    {
        assert forall|k: int| 0 <= k < 4096 implies #[trigger] self.chunk_of(
            self.loaded_cells(cells, bx, by, chunk),
            bx,
            by,
        )[k] == chunk[k] by {
            self.lemma_last_writer_is(bx, by, k, 4096);
            self.lemma_index_bounds(chunk_cell_x(bx, k), chunk_cell_y(by, k));
        }
        assert(self.chunk_of(self.loaded_cells(cells, bx, by, chunk), bx, by) =~= chunk);
    }
}

} // verus!
