use vstd::prelude::*;
use crate::chunk::{CHUNK_COORD_MAX, CHUNK_COORD_MIN};
use crate::geom::{IVec2, UVec2};
use crate::pixel::Pixel;

verus! {

/// Side of a chunk of the pixel window, in pixels.
pub const CHUNK_SIDE: usize = 64;

/// Most chunks the pixel window spans along either axis.
pub const WINDOW_CHUNK_LIMIT: u32 = 512;


/// Pixels in one chunk.
pub const CHUNK_PIXELS: usize = 4096;

/// The pixels of chunk `c` have `i32` coordinates.
pub open spec fn chunk_coords_fit(c: IVec2) -> bool {
    &&& i32::MIN <= c.x * 64
    &&& c.x * 64 + 63 <= i32::MAX
    &&& i32::MIN <= c.y * 64
    &&& c.y * 64 + 63 <= i32::MAX
}

/// Pixel `k` of chunk `c`, counting row by row from the chunk's lower corner.
pub open spec fn chunk_pixel(c: IVec2, k: int) -> IVec2 {
    IVec2 { x: (c.x * 64 + k % 64) as i32, y: (c.y * 64 + k / 64) as i32 }
}

/// How many chunks are kept loaded around the player and how many of them are shown.
#[derive(Debug, Clone, Copy, PartialEq, Eq, Structural)]
pub struct ActiveGridConfig {
    pub loaded_chunks: UVec2,
    pub visible_chunks: UVec2,
}

pub open spec fn max_u32(a: u32, b: u32) -> u32 {
    if a >= b {
        a
    } else {
        b
    }
}

impl ActiveGridConfig {
    /// Every count is small enough for the window's pixel buffer.
    pub open spec fn fits(&self) -> bool {
        &&& self.loaded_chunks.x <= WINDOW_CHUNK_LIMIT
        &&& self.loaded_chunks.y <= WINDOW_CHUNK_LIMIT
        &&& self.visible_chunks.x <= WINDOW_CHUNK_LIMIT
        &&& self.visible_chunks.y <= WINDOW_CHUNK_LIMIT
    }

    /// At least one chunk is shown, and every shown chunk is loaded.
    pub open spec fn is_sanitized(&self) -> bool {
        &&& 1 <= self.visible_chunks.x <= self.loaded_chunks.x
        &&& 1 <= self.visible_chunks.y <= self.loaded_chunks.y
    }

    pub open spec fn sanitized_spec(self) -> ActiveGridConfig {
        let vx = max_u32(self.visible_chunks.x, 1);
        let vy = max_u32(self.visible_chunks.y, 1);
        ActiveGridConfig {
            loaded_chunks: UVec2 { x: max_u32(self.loaded_chunks.x, vx), y: max_u32(self.loaded_chunks.y, vy) },
            visible_chunks: UVec2 { x: vx, y: vy },
        }
    }

    /// Shows at least one chunk along each axis and loads at least what is shown.
    pub fn sanitized(self) -> (r: Self)
        ensures
            r == self.sanitized_spec(),
            r.is_sanitized(),
            self.fits() ==> r.fits(),
    {
        let vx = if self.visible_chunks.x >= 1 {
            self.visible_chunks.x
        } else {
            1
        };
        let vy = if self.visible_chunks.y >= 1 {
            self.visible_chunks.y
        } else {
            1
        };
        let lx = if self.loaded_chunks.x >= vx {
            self.loaded_chunks.x
        } else {
            vx
        };
        let ly = if self.loaded_chunks.y >= vy {
            self.loaded_chunks.y
        } else {
            vy
        };
        ActiveGridConfig { loaded_chunks: UVec2 { x: lx, y: ly }, visible_chunks: UVec2 { x: vx, y: vy } }
    }

    pub fn loaded_pixel_dimensions(self) -> (r: UVec2)
        requires
            self.fits(),
        ensures
            r.x == self.loaded_chunks.x * 64,
            r.y == self.loaded_chunks.y * 64,
    {
        UVec2 { x: self.loaded_chunks.x * CHUNK_SIDE as u32, y: self.loaded_chunks.y * CHUNK_SIDE as u32 }
    }

    pub fn visible_pixel_dimensions(self) -> (r: UVec2)
        requires
            self.fits(),
        ensures
            r.x == self.visible_chunks.x * 64,
            r.y == self.visible_chunks.y * 64,
    {
        UVec2 { x: self.visible_chunks.x * CHUNK_SIDE as u32, y: self.visible_chunks.y * CHUNK_SIDE as u32 }
    }

    pub fn half_loaded_chunks(self) -> (r: IVec2)
        requires
            self.fits(),
        ensures
            r.x == self.loaded_chunks.x / 2,
            r.y == self.loaded_chunks.y / 2,
    {
        IVec2 { x: (self.loaded_chunks.x / 2) as i32, y: (self.loaded_chunks.y / 2) as i32 }
    }

    pub fn loaded_chunks_i32(self) -> (r: IVec2)
        requires
            self.fits(),
        ensures
            r.x == self.loaded_chunks.x,
            r.y == self.loaded_chunks.y,
    {
        IVec2 { x: self.loaded_chunks.x as i32, y: self.loaded_chunks.y as i32 }
    }

    /// Half the shown area, in pixels, rounded down.
    pub fn half_visible_pixels(self) -> (r: IVec2)
        requires
            self.fits(),
        ensures
            r.x == self.visible_chunks.x * 64 / 2,
            r.y == self.visible_chunks.y * 64 / 2,
    {
        let d = self.visible_pixel_dimensions();
        IVec2 { x: (d.x / 2) as i32, y: (d.y / 2) as i32 }
    }
}

impl Default for ActiveGridConfig {
    /// Ten by ten chunks loaded, eight by eight shown.
    fn default() -> (r: Self)
        ensures
            r.loaded_chunks == (UVec2 { x: 10, y: 10 }),
            r.visible_chunks == (UVec2 { x: 8, y: 8 }),
            r.fits(),
            r.is_sanitized(),
    {
        ActiveGridConfig { loaded_chunks: UVec2::new(10, 10), visible_chunks: UVec2::new(8, 8) }.sanitized()
    }
}

/// Where the loaded and shown areas lie in the world.
#[derive(Debug, Clone, Copy, PartialEq, Eq, Structural)]
pub struct ActiveGridView {
    pub loaded_world_chunk_min: IVec2,
    pub loaded_world_pixel_min: IVec2,
    pub loaded_pixel_dimensions: UVec2,
    pub visible_world_pixel_min: IVec2,
    pub visible_pixel_dimensions: UVec2,
}

/// Chunks that entered and left the loaded window, in the order they did.
pub struct ChunkWindowDelta {
    pub entered_chunks: Vec<IVec2>,
    pub exited_chunks: Vec<IVec2>,
}

impl Default for ChunkWindowDelta {
    fn default() -> (r: Self)
        ensures
            r.entered_chunks@.len() == 0,
            r.exited_chunks@.len() == 0,
    {
        ChunkWindowDelta { entered_chunks: Vec::new(), exited_chunks: Vec::new() }
    }
}

impl ChunkWindowDelta {
    pub fn is_empty(&self) -> (r: bool)
        ensures
            r == (self.entered_chunks@.len() == 0 && self.exited_chunks@.len() == 0),
    {
        self.entered_chunks.len() == 0 && self.exited_chunks.len() == 0
    }

    /// Every chunk of a window entering at once.
    pub fn full_window(chunks: Vec<IVec2>) -> (r: Self)
        ensures
            r.entered_chunks@ == chunks@,
            r.exited_chunks@.len() == 0,
    {
        ChunkWindowDelta { entered_chunks: chunks, exited_chunks: Vec::new() }
    }

    /// Adds the moves of `other` after those already recorded.
    pub fn append(&mut self, other: Self)
        ensures
            final(self).entered_chunks@ == old(self).entered_chunks@ + other.entered_chunks@,
            final(self).exited_chunks@ == old(self).exited_chunks@ + other.exited_chunks@,
    {
        let mut other = other;
        self.entered_chunks.append(&mut other.entered_chunks);
        self.exited_chunks.append(&mut other.exited_chunks);
    }
}

/// `a` comes before `b` when chunks are read row by row.
pub open spec fn ivec_precedes(a: IVec2, b: IVec2) -> bool {
    a.y < b.y || (a.y == b.y && a.x < b.x)
}

/// A window corner the window can have around an `i32` pixel: the pixel's chunk, moved back by
/// at most half a window of at most `WINDOW_CHUNK_LIMIT` chunks.
pub open spec fn corner_in_range(c: IVec2) -> bool {
    CHUNK_COORD_MIN - 256 <= c.x <= CHUNK_COORD_MAX && CHUNK_COORD_MIN - 256 <= c.y <= CHUNK_COORD_MAX
}

/// The chunk `c` lies in the window of `size` chunks whose lower corner is `min`.
pub open spec fn in_window_at(min: IVec2, size: UVec2, c: IVec2) -> bool {
    min.x <= c.x < min.x + size.x && min.y <= c.y < min.y + size.y
}

/// The chunks of the window at `a` that are not in the window at `b`, both of `size` chunks,
/// row by row.
fn window_difference(a: IVec2, b: IVec2, size: UVec2) -> (r: Vec<IVec2>)
    requires
        corner_in_range(a),
        i32::MIN <= b.x,
        b.x + size.x <= i32::MAX,
        i32::MIN <= b.y,
        b.y + size.y <= i32::MAX,
        size.x <= WINDOW_CHUNK_LIMIT,
        size.y <= WINDOW_CHUNK_LIMIT,
    ensures
        forall|c: IVec2| r@.contains(c) <==> in_window_at(a, size, c) && !in_window_at(b, size, c),
        forall|i: int, j: int| 0 <= i < j < r@.len() ==> ivec_precedes(r@[i], r@[j]),
{
    let mut out: Vec<IVec2> = Vec::new();
    let ax_end = a.x + size.x as i32;
    let ay_end = a.y + size.y as i32;
    let bx_end = b.x + size.x as i32;
    let by_end = b.y + size.y as i32;
    let mut y = a.y;
    while y < ay_end
        invariant
            a.y <= y <= ay_end || (y == a.y && ay_end < a.y),
            ax_end == a.x + size.x,
            ay_end == a.y + size.y,
            bx_end == b.x + size.x,
            by_end == b.y + size.y,
            corner_in_range(a),
            size.x <= WINDOW_CHUNK_LIMIT,
            forall|c: IVec2| out@.contains(c) <==> in_window_at(a, size, c) && !in_window_at(b, size, c) && c.y < y,
            forall|i: int, j: int| 0 <= i < j < out@.len() ==> ivec_precedes(out@[i], out@[j]),
            forall|i: int| 0 <= i < out@.len() ==> (#[trigger] out@[i]).y < y,
        decreases ay_end - y,
    {
        let mut x = a.x;
        while x < ax_end
            invariant
                a.y <= y < ay_end,
                a.x <= x <= ax_end,
                ax_end == a.x + size.x,
                ay_end == a.y + size.y,
                bx_end == b.x + size.x,
                by_end == b.y + size.y,
                forall|c: IVec2|
                    out@.contains(c) <==> in_window_at(a, size, c) && !in_window_at(b, size, c) && (c.y < y || (c.y == y
                        && c.x < x)),
                forall|i: int, j: int| 0 <= i < j < out@.len() ==> ivec_precedes(out@[i], out@[j]),
                forall|i: int| 0 <= i < out@.len() ==> (#[trigger] out@[i]).y < y || (out@[i].y == y && out@[i].x < x),
            decreases ax_end - x,
        {
            let c = IVec2 { x, y };
            let still_present = c.x >= b.x && c.x < bx_end && c.y >= b.y && c.y < by_end;
            let ghost before = out@;
            if !still_present {
                out.push(c);
            }
            proof {
                assert forall|d: IVec2| out@.contains(d) implies in_window_at(a, size, d) && !in_window_at(b, size, d) && (d.y < y
                    || (d.y == y && d.x < x + 1)) by {
                    let i = choose|i: int| 0 <= i < out@.len() && out@[i] == d;
                    if i < before.len() {
                        assert(before[i] == d);
                        assert(before.contains(d));
                    } else {
                        assert(d == c);
                    }
                }
                assert forall|d: IVec2| in_window_at(a, size, d) && !in_window_at(b, size, d) && (d.y < y || (d.y == y
                    && d.x < x + 1)) implies out@.contains(d) by {
                    if d.y == y && d.x == x {
                        assert(d == c);
                        assert(out@[out@.len() - 1] == d);
                    } else {
                        assert(before.contains(d));
                        let i = choose|i: int| 0 <= i < before.len() && before[i] == d;
                        assert(out@[i] == d);
                    }
                }
            }
            x = x + 1;
        }
        y = y + 1;
    }
    out
}

/// The loaded pixels around the player, kept in a buffer that wraps in both directions so that
/// moving the window copies nothing.
pub struct ToroidalGrid {
    config: ActiveGridConfig,
    pixels: Vec<Pixel>,
    world_chunk_min: IVec2,
}

impl ToroidalGrid {
    pub closed spec fn grid_config(&self) -> ActiveGridConfig {
        self.config
    }

    /// The lower corner of the loaded window, in chunks.
    pub closed spec fn chunk_min(&self) -> IVec2 {
        self.world_chunk_min
    }

    pub closed spec fn buffer(&self) -> Seq<Pixel> {
        self.pixels@
    }

    pub open spec fn pixel_width(&self) -> int {
        self.grid_config().loaded_chunks.x * 64
    }

    pub open spec fn pixel_height(&self) -> int {
        self.grid_config().loaded_chunks.y * 64
    }

    pub open spec fn wf(&self) -> bool {
        &&& self.grid_config().fits()
        &&& self.grid_config().is_sanitized()
        &&& self.buffer().len() == self.pixel_width() * self.pixel_height()
        &&& corner_in_range(self.chunk_min())
    }

    /// The buffer slot of world pixel `p`: its coordinates wrapped by the buffer's size.
    pub open spec fn slot(&self, p: IVec2) -> int {
        (p.y as int % self.pixel_height()) * self.pixel_width() + p.x as int % self.pixel_width()
    }

    pub open spec fn pixel_at(&self, p: IVec2) -> Pixel {
        self.buffer()[self.slot(p)]
    }

    pub open spec fn in_window(&self, c: IVec2) -> bool {
        in_window_at(self.chunk_min(), self.grid_config().loaded_chunks, c)
    }

    /// The chunk holding world pixel `p`.
    pub open spec fn chunk_of_pixel(p: IVec2) -> IVec2 {
        IVec2 { x: (p.x / 64) as i32, y: (p.y / 64) as i32 }
    }

    /// The window corner that centres the window on the chunk of `p`.
    pub open spec fn corner_for(config: ActiveGridConfig, p: IVec2) -> IVec2 {
        IVec2 {
            x: (p.x / 64 - config.loaded_chunks.x / 2) as i32,
            y: (p.y / 64 - config.loaded_chunks.y / 2) as i32,
        }
    }

    proof fn lemma_slot_bounds(&self, p: IVec2)
        requires
            self.wf(),
        ensures
            0 <= self.slot(p) < self.buffer().len(),
    {
        let w = self.pixel_width();
        let h = self.pixel_height();
        vstd::arithmetic::div_mod::lemma_mod_bound(p.x as int, w);
        vstd::arithmetic::div_mod::lemma_mod_bound(p.y as int, h);
        let a = p.y as int % h;
        let b = p.x as int % w;
        assert(0 <= a * w + b < w * h) by (nonlinear_arith)
            requires
                0 <= a < h,
                0 <= b < w,
                w > 0,
        ;
    }

    proof fn lemma_corner(config: ActiveGridConfig, p: IVec2)
        requires
            config.fits(),
        ensures
            corner_in_range(Self::corner_for(config, p)),
            Self::corner_for(config, p).x == p.x / 64 - config.loaded_chunks.x / 2,
            Self::corner_for(config, p).y == p.y / 64 - config.loaded_chunks.y / 2,
    {
        vstd::arithmetic::div_mod::lemma_div_is_ordered(i32::MIN as int, p.x as int, 64);
        vstd::arithmetic::div_mod::lemma_div_is_ordered(p.x as int, i32::MAX as int, 64);
        vstd::arithmetic::div_mod::lemma_div_is_ordered(i32::MIN as int, p.y as int, 64);
        vstd::arithmetic::div_mod::lemma_div_is_ordered(p.y as int, i32::MAX as int, 64);
        assert(i32::MIN as int / 64 == CHUNK_COORD_MIN);
        assert(i32::MAX as int / 64 == CHUNK_COORD_MAX);
    }

    /// The lower corner of the shown area around `p` has an `i32` position.
    pub open spec fn shown_min_fits(&self, p: IVec2) -> bool {
        &&& i32::MIN <= p.x - self.grid_config().visible_chunks.x * 64 / 2
        &&& i32::MIN <= p.y - self.grid_config().visible_chunks.y * 64 / 2
    }

    /// Every pixel of the shown area around `p` has an `i32` position.
    pub open spec fn shown_fits(&self, p: IVec2) -> bool {
        &&& self.shown_min_fits(p)
        &&& p.x - self.grid_config().visible_chunks.x * 64 / 2 + self.grid_config().visible_chunks.x * 64 <= i32::MAX
        &&& p.y - self.grid_config().visible_chunks.y * 64 / 2 + self.grid_config().visible_chunks.y * 64 <= i32::MAX
    }

    /// The lower corner of the loaded window has an `i32` pixel position.
    pub open spec fn corner_pixels_fit(&self) -> bool {
        &&& i32::MIN <= self.chunk_min().x * 64
        &&& i32::MIN <= self.chunk_min().y * 64
    }

    pub fn config(&self) -> (r: ActiveGridConfig)
        ensures
            r == self.grid_config(),
    {
        self.config
    }

    pub fn loaded_pixel_dimensions(&self) -> (r: UVec2)
        requires
            self.wf(),
        ensures
            r.x == self.pixel_width(),
            r.y == self.pixel_height(),
    {
        self.config.loaded_pixel_dimensions()
    }

    pub fn visible_pixel_dimensions(&self) -> (r: UVec2)
        requires
            self.wf(),
        ensures
            r.x == self.grid_config().visible_chunks.x * 64,
            r.y == self.grid_config().visible_chunks.y * 64,
    {
        self.config.visible_pixel_dimensions()
    }

    /// The lower corner of the loaded window, in pixels.
    pub fn active_world_pixel_min(&self) -> (r: IVec2)
        requires
            self.wf(),
            self.corner_pixels_fit(),
        ensures
            r.x == self.chunk_min().x * 64,
            r.y == self.chunk_min().y * 64,
    {
        IVec2 { x: self.world_chunk_min.x * CHUNK_SIDE as i32, y: self.world_chunk_min.y * CHUNK_SIDE as i32 }
    }

    /// The lower corner of the shown area, which the player's pixel centres.
    pub fn visible_world_pixel_min(&self, player_world_pixel: IVec2) -> (r: IVec2)
        requires
            self.wf(),
            self.shown_min_fits(player_world_pixel),
        ensures
            r.x == player_world_pixel.x - self.grid_config().visible_chunks.x * 64 / 2,
            r.y == player_world_pixel.y - self.grid_config().visible_chunks.y * 64 / 2,
    {
        let half = self.config.half_visible_pixels();
        IVec2 { x: player_world_pixel.x - half.x, y: player_world_pixel.y - half.y }
    }

    pub fn view(&self, player_world_pixel: IVec2) -> (r: ActiveGridView)
        requires
            self.wf(),
            self.shown_min_fits(player_world_pixel),
            self.corner_pixels_fit(),
        ensures
            r.loaded_world_chunk_min == self.chunk_min(),
            r.loaded_world_pixel_min.x == self.chunk_min().x * 64,
            r.loaded_world_pixel_min.y == self.chunk_min().y * 64,
            r.loaded_pixel_dimensions.x == self.pixel_width(),
            r.loaded_pixel_dimensions.y == self.pixel_height(),
            r.visible_world_pixel_min.x == player_world_pixel.x - self.grid_config().visible_chunks.x * 64 / 2,
            r.visible_world_pixel_min.y == player_world_pixel.y - self.grid_config().visible_chunks.y * 64 / 2,
            r.visible_pixel_dimensions.x == self.grid_config().visible_chunks.x * 64,
            r.visible_pixel_dimensions.y == self.grid_config().visible_chunks.y * 64,
    {
        ActiveGridView {
            loaded_world_chunk_min: self.world_chunk_min,
            loaded_world_pixel_min: self.active_world_pixel_min(),
            loaded_pixel_dimensions: self.loaded_pixel_dimensions(),
            visible_world_pixel_min: self.visible_world_pixel_min(player_world_pixel),
            visible_pixel_dimensions: self.visible_pixel_dimensions(),
        }
    }

    /// The chunk holding a world pixel, rounding towards negative infinity.
    pub fn world_to_chunk(&self, world_pixel: IVec2) -> (r: IVec2)
        ensures
            r == Self::chunk_of_pixel(world_pixel),
    {
        let x = match world_pixel.x.checked_div_euclid(CHUNK_SIDE as i32) {
            Some(v) => v,
            None => 0,
        };
        let y = match world_pixel.y.checked_div_euclid(CHUNK_SIDE as i32) {
            Some(v) => v,
            None => 0,
        };
        proof {
            assert(CHUNK_SIDE as i32 == 64);
            vstd::arithmetic::div_mod::lemma_div_is_ordered(i32::MIN as int, world_pixel.x as int, 64);
            vstd::arithmetic::div_mod::lemma_div_is_ordered(world_pixel.x as int, i32::MAX as int, 64);
            vstd::arithmetic::div_mod::lemma_div_is_ordered(i32::MIN as int, world_pixel.y as int, 64);
            vstd::arithmetic::div_mod::lemma_div_is_ordered(world_pixel.y as int, i32::MAX as int, 64);
        }
        IVec2 { x, y }
    }

    fn buffer_index(&self, world_pixel: IVec2) -> (r: usize)
        requires
            self.wf(),
        ensures
            r == self.slot(world_pixel),
            r < self.buffer().len(),
    {
        let dims = self.loaded_pixel_dimensions();
        let w = dims.x as i32;
        let h = dims.y as i32;
        let bx = match world_pixel.x.checked_rem_euclid(w) {
            Some(v) => v,
            None => 0,
        };
        let by = match world_pixel.y.checked_rem_euclid(h) {
            Some(v) => v,
            None => 0,
        };
        proof {
            self.lemma_slot_bounds(world_pixel);
            vstd::arithmetic::div_mod::lemma_mod_bound(world_pixel.x as int, w as int);
            vstd::arithmetic::div_mod::lemma_mod_bound(world_pixel.y as int, h as int);
            assert(w as int * h as int <= 1073741824) by (nonlinear_arith)
                requires
                    0 < w <= 32768,
                    0 < h <= 32768,
            ;
            assert((by as int) * (w as int) + (bx as int) == self.slot(world_pixel));
        }
        (by as usize) * (w as usize) + bx as usize
    }

    pub fn get_world_pixel(&self, world_pixel: IVec2) -> (r: Pixel)
        requires
            self.wf(),
        ensures
            r == self.pixel_at(world_pixel),
    {
        let i = self.buffer_index(world_pixel);
        self.pixels[i]
    }

    pub fn set_world_pixel(&mut self, world_pixel: IVec2, pixel: Pixel)
        requires
            old(self).wf(),
        ensures
            final(self).wf(),
            final(self).grid_config() == old(self).grid_config(),
            final(self).chunk_min() == old(self).chunk_min(),
            final(self).buffer() == old(self).buffer().update(old(self).slot(world_pixel), pixel),
    {
        let index = self.buffer_index(world_pixel);
        self.pixels.set(index, pixel);
    }

    pub fn contains_world_chunk(&self, world_chunk: IVec2) -> (r: bool)
        requires
            self.wf(),
        ensures
            r == self.in_window(world_chunk),
    {
        let loaded = self.config.loaded_chunks_i32();
        let max_x = self.world_chunk_min.x + loaded.x;
        let max_y = self.world_chunk_min.y + loaded.y;
        world_chunk.x >= self.world_chunk_min.x && world_chunk.x < max_x && world_chunk.y >= self.world_chunk_min.y
            && world_chunk.y < max_y
    }

    /// Every chunk of the loaded window, row by row.
    pub fn window_chunks(&self) -> (r: Vec<IVec2>)
        requires
            self.wf(),
        ensures
            forall|c: IVec2| r@.contains(c) <==> self.in_window(c),
            forall|i: int, j: int| 0 <= i < j < r@.len() ==> ivec_precedes(r@[i], r@[j]),
    {
        let far = IVec2 { x: self.world_chunk_min.x + self.config.loaded_chunks.x as i32 + 1, y: self.world_chunk_min.y };
        proof {
            assert forall|c: IVec2| in_window_at(self.world_chunk_min, self.config.loaded_chunks, c) implies !in_window_at(
                far,
                self.config.loaded_chunks,
                c,
            ) by {}
        }
        window_difference(self.world_chunk_min, far, self.config.loaded_chunks)
    }

    /// The whole loaded window as chunks that entered it.
    pub fn full_window_delta(&self) -> (r: ChunkWindowDelta)
        requires
            self.wf(),
        ensures
            forall|c: IVec2| r.entered_chunks@.contains(c) <==> self.in_window(c),
            forall|i: int, j: int|
                0 <= i < j < r.entered_chunks@.len() ==> ivec_precedes(r.entered_chunks@[i], r.entered_chunks@[j]),
            r.exited_chunks@.len() == 0,
    {
        ChunkWindowDelta::full_window(self.window_chunks())
    }

    /// Moves the loaded window so that it is centred on the chunk of the player's pixel, and
    /// reports the chunks that left it and those that entered it, each row by row. Nothing
    /// moves in the buffer: the pixels of chunks that stay keep their slots.
    pub fn recenter_around(&mut self, player_world_pixel: IVec2) -> (r: ChunkWindowDelta)
        requires
            old(self).wf(),
        ensures
            final(self).wf(),
            final(self).grid_config() == old(self).grid_config(),
            final(self).buffer() == old(self).buffer(),
            final(self).chunk_min() == Self::corner_for(old(self).grid_config(), player_world_pixel),
            forall|c: IVec2| r.exited_chunks@.contains(c) <==> old(self).in_window(c) && !final(self).in_window(c),
            forall|c: IVec2| r.entered_chunks@.contains(c) <==> final(self).in_window(c) && !old(self).in_window(c),
            forall|i: int, j: int|
                0 <= i < j < r.exited_chunks@.len() ==> ivec_precedes(r.exited_chunks@[i], r.exited_chunks@[j]),
            forall|i: int, j: int|
                0 <= i < j < r.entered_chunks@.len() ==> ivec_precedes(r.entered_chunks@[i], r.entered_chunks@[j]),
    {
        proof {
            Self::lemma_corner(self.config, player_world_pixel);
        }
        let target_chunk = self.world_to_chunk(player_world_pixel);
        let half = self.config.half_loaded_chunks();
        let target_min = IVec2 { x: target_chunk.x - half.x, y: target_chunk.y - half.y };
        if target_min == self.world_chunk_min {
            return ChunkWindowDelta::default();
        }
        let previous_min = self.world_chunk_min;
        let exited = window_difference(previous_min, target_min, self.config.loaded_chunks);
        let entered = window_difference(target_min, previous_min, self.config.loaded_chunks);
        self.world_chunk_min = target_min;
        ChunkWindowDelta { entered_chunks: entered, exited_chunks: exited }
    }

    /// The shown pixels, row by row from the lower corner of the shown area.
    pub fn copy_visible_window_pixels(&self, player_world_pixel: IVec2) -> (r: Vec<Pixel>)
        requires
            self.wf(),
            self.shown_fits(player_world_pixel),
            self.corner_pixels_fit(),
        ensures
            ({
                let vw = self.grid_config().visible_chunks.x * 64;
                let vh = self.grid_config().visible_chunks.y * 64;
                let min_x = player_world_pixel.x - vw / 2;
                let min_y = player_world_pixel.y - vh / 2;
                &&& r@.len() == vw * vh
                &&& forall|yy: int, xx: int|
                    0 <= yy < vh && 0 <= xx < vw ==> #[trigger] r@[yy * vw + xx] == self.pixel_at(
                        IVec2 { x: (min_x + xx) as i32, y: (min_y + yy) as i32 },
                    )
            }),
    {
        let view = self.view(player_world_pixel);
        let vw = view.visible_pixel_dimensions.x as i32;
        let vh = view.visible_pixel_dimensions.y as i32;
        let mut output: Vec<Pixel> = Vec::new();
        let mut y: i32 = 0;
        while y < vh
            invariant
                self.wf(),
                0 <= y <= vh,
                vw == self.grid_config().visible_chunks.x * 64,
                vh == self.grid_config().visible_chunks.y * 64,
                view.visible_world_pixel_min.x == player_world_pixel.x - vw / 2,
                view.visible_world_pixel_min.y == player_world_pixel.y - vh / 2,
                self.shown_fits(player_world_pixel),
                output@.len() == y * vw,
                forall|yy: int, xx: int|
                    0 <= yy < y && 0 <= xx < vw ==> #[trigger] output@[yy * vw + xx] == self.pixel_at(
                        IVec2 { x: (view.visible_world_pixel_min.x + xx) as i32, y: (view.visible_world_pixel_min.y + yy) as i32 },
                    ),
            decreases vh - y,
        {
            let mut x: i32 = 0;
            while x < vw
                invariant
                    self.wf(),
                    0 <= y < vh,
                    0 <= x <= vw,
                    vw == self.grid_config().visible_chunks.x * 64,
                    vh == self.grid_config().visible_chunks.y * 64,
                    view.visible_world_pixel_min.x == player_world_pixel.x - vw / 2,
                    view.visible_world_pixel_min.y == player_world_pixel.y - vh / 2,
                    self.shown_fits(player_world_pixel),
                    output@.len() == y * vw + x,
                    forall|yy: int, xx: int|
                        (0 <= yy < y && 0 <= xx < vw) || (yy == y && 0 <= xx < x) ==> #[trigger] output@[yy * vw + xx]
                            == self.pixel_at(
                            IVec2 {
                                x: (view.visible_world_pixel_min.x + xx) as i32,
                                y: (view.visible_world_pixel_min.y + yy) as i32,
                            },
                        ),
                decreases vw - x,
            {
                let world_pixel = IVec2 { x: view.visible_world_pixel_min.x + x, y: view.visible_world_pixel_min.y + y };
                let ghost before = output@;
                output.push(self.get_world_pixel(world_pixel));
                proof {
                    assert forall|yy: int, xx: int|
                        (0 <= yy < y && 0 <= xx < vw) || (yy == y && 0 <= xx < x + 1) implies #[trigger] output@[yy
                            * vw + xx] == self.pixel_at(
                        IVec2 {
                            x: (view.visible_world_pixel_min.x + xx) as i32,
                            y: (view.visible_world_pixel_min.y + yy) as i32,
                        },
                    ) by {
                        if yy == y && xx == x {
                            assert(yy * vw + xx == before.len());
                        } else {
                            if yy < y {
                                assert(yy * vw + xx < y * vw) by (nonlinear_arith)
                                    requires
                                        0 <= yy < y,
                                        0 <= xx < vw,
                                ;
                            }
                            assert(0 <= yy * vw + xx) by (nonlinear_arith)
                                requires
                                    0 <= yy,
                                    0 <= xx,
                                    0 <= vw,
                            ;
                            assert(output@[yy * vw + xx] == before[yy * vw + xx]);
                        }
                    }
                }
                x = x + 1;
            }
            proof {
                assert(y * vw + vw == (y + 1) * vw) by (nonlinear_arith);
            }
            y = y + 1;
        }
        assert(vh * vw == vw * vh) by (nonlinear_arith);
        output
    }

    /// A window centred on the chunk of the player's pixel, with every pixel empty.
    pub fn new(config: ActiveGridConfig, player_world_pixel: IVec2) -> (r: Self)
        requires
            config.fits(),
        ensures
            r.wf(),
            r.grid_config() == config.sanitized_spec(),
            r.chunk_min() == Self::corner_for(config.sanitized_spec(), player_world_pixel),
            forall|i: int| 0 <= i < r.buffer().len() ==> (#[trigger] r.buffer()[i]).is_empty_spec(),
    {
        let config = config.sanitized();
        let dims = config.loaded_pixel_dimensions();
        assert(dims.x as int * dims.y as int <= 1073741824) by (nonlinear_arith)
            requires
                dims.x <= 32768,
                dims.y <= 32768,
        ;
        let size = dims.x as usize * dims.y as usize;
        let mut pixels: Vec<Pixel> = Vec::new();
        let mut i: usize = 0;
        while i < size
            invariant
                i <= size,
                pixels@.len() == i,
                forall|j: int| 0 <= j < i ==> (#[trigger] pixels@[j]).is_empty_spec(),
            decreases size - i,
        {
            pixels.push(Pixel::default());
            i = i + 1;
        }
        proof {
            Self::lemma_corner(config, player_world_pixel);
        }
        let mut grid = ToroidalGrid { config, pixels, world_chunk_min: IVec2 { x: 0, y: 0 } };
        let center = grid.world_to_chunk(player_world_pixel);
        let half = config.half_loaded_chunks();
        grid.world_chunk_min = IVec2 { x: center.x - half.x, y: center.y - half.y };
        grid
    }
}

impl ToroidalGrid {
    /// World pixel `p` lies in the loaded window.
    pub open spec fn pixel_in_window(&self, p: IVec2) -> bool {
        &&& self.chunk_min().x * 64 <= p.x < self.chunk_min().x * 64 + self.pixel_width()
        &&& self.chunk_min().y * 64 <= p.y < self.chunk_min().y * 64 + self.pixel_height()
    }

    /// The pixels of chunk `c` in the buffer `buf`, row by row.
    pub open spec fn chunk_pixels_in(&self, buf: Seq<Pixel>, c: IVec2) -> Seq<Pixel> {
        Seq::new(4096, |k: int| buf[self.slot(chunk_pixel(c, k))])
    }

    /// The pixels of chunk `c` as the window holds them, row by row.
    pub open spec fn chunk_pixels(&self, c: IVec2) -> Seq<Pixel> {
        self.chunk_pixels_in(self.buffer(), c)
    }

    /// The last of the first `n` pixels of chunk `c` that lands on slot `i`.
    pub open spec fn last_writer(&self, c: IVec2, i: int, n: int) -> Option<int>
        decreases n,
    {
        if n <= 0 {
            None
        } else if self.slot(chunk_pixel(c, n - 1)) == i {
            Some(n - 1)
        } else {
            self.last_writer(c, i, n - 1)
        }
    }

    /// The buffer `buf` after the first `n` pixels of `px` are written as chunk `c`.
    pub open spec fn written_upto(&self, buf: Seq<Pixel>, c: IVec2, px: Seq<Pixel>, n: int) -> Seq<Pixel> {
        Seq::new(
            buf.len(),
            |i: int|
                match self.last_writer(c, i, n) {
                    Some(k) => px[k],
                    None => buf[i],
                },
        )
    }

    /// The buffer `buf` after `px` is written as the pixels of chunk `c`.
    pub open spec fn written(&self, buf: Seq<Pixel>, c: IVec2, px: Seq<Pixel>) -> Seq<Pixel> {
        self.written_upto(buf, c, px, 4096)
    }

    /// The pixels of a chunk of the window with `i32` coordinates all lie in the window.
    proof fn lemma_window_chunk(&self, c: IVec2, k: int)
        requires
            self.wf(),
            self.in_window(c),
            chunk_coords_fit(c),
            0 <= k < 4096,
        ensures
            chunk_pixel(c, k).x == c.x * 64 + k % 64,
            chunk_pixel(c, k).y == c.y * 64 + k / 64,
            self.pixel_in_window(chunk_pixel(c, k)),
    {
        assert(0 <= k / 64 < 64);
    }

    /// Two distinct pixels of the window never share a slot.
    proof fn lemma_window_pixel_slots_distinct(&self, p1: IVec2, p2: IVec2)
        requires
            self.wf(),
            self.pixel_in_window(p1),
            self.pixel_in_window(p2),
            p1 != p2,
        ensures
            self.slot(p1) != self.slot(p2),
    {
        let w = self.pixel_width();
        let h = self.pixel_height();
        vstd::arithmetic::div_mod::lemma_mod_bound(p1.x as int, w);
        vstd::arithmetic::div_mod::lemma_mod_bound(p2.x as int, w);
        vstd::arithmetic::div_mod::lemma_mod_bound(p1.y as int, h);
        vstd::arithmetic::div_mod::lemma_mod_bound(p2.y as int, h);
        if self.slot(p1) == self.slot(p2) {
            crate::grid::lemma_index_injective(p1.y as int % h, p1.x as int % w, p2.y as int % h, p2.x as int % w, w);
            if p1.y != p2.y {
                if p1.y < p2.y {
                    crate::grid::lemma_mod_distinct(p1.y as int, p2.y as int, h);
                } else {
                    crate::grid::lemma_mod_distinct(p2.y as int, p1.y as int, h);
                }
            } else {
                assert(p1.x != p2.x);
                if p1.x < p2.x {
                    crate::grid::lemma_mod_distinct(p1.x as int, p2.x as int, w);
                } else {
                    crate::grid::lemma_mod_distinct(p2.x as int, p1.x as int, w);
                }
            }
        }
    }

    proof fn lemma_last_writer_none(&self, c: IVec2, i: int, n: int)
        requires
            forall|k: int| 0 <= k < n ==> #[trigger] self.slot(chunk_pixel(c, k)) != i,
        ensures
            self.last_writer(c, i, n) is None,
        decreases n,
    {
        if n > 0 {
            self.lemma_last_writer_none(c, i, n - 1);
        }
    }

    proof fn lemma_last_writer_is(&self, c: IVec2, k: int, n: int)
        requires
            self.wf(),
            self.in_window(c),
            chunk_coords_fit(c),
            0 <= k < n <= 4096,
        ensures
            self.last_writer(c, self.slot(chunk_pixel(c, k)), n) == Some(k),
        decreases n,
    {
        if n - 1 > k {
            self.lemma_window_chunk(c, k);
            self.lemma_window_chunk(c, n - 1);
            assert(chunk_pixel(c, k) != chunk_pixel(c, n - 1)) by {
                if k / 64 == (n - 1) / 64 {
                    assert(k % 64 != (n - 1) % 64);
                }
            }
            self.lemma_window_pixel_slots_distinct(chunk_pixel(c, k), chunk_pixel(c, n - 1));
            self.lemma_last_writer_is(c, k, n - 1);
        }
    }

    /// A chunk written into the window reads back as exactly the pixels written.
    pub proof fn law_write_then_read(&self, buf: Seq<Pixel>, c: IVec2, px: Seq<Pixel>)
        requires
            self.wf(),
            self.in_window(c),
            chunk_coords_fit(c),
            buf.len() == self.buffer().len(),
            px.len() == 4096,
        ensures
            self.chunk_pixels_in(self.written(buf, c, px), c) == px,
    {
        assert forall|k: int| 0 <= k < 4096 implies #[trigger] self.chunk_pixels_in(self.written(buf, c, px), c)[k]
            == px[k] by {
            self.lemma_last_writer_is(c, k, 4096);
            self.lemma_slot_bounds(chunk_pixel(c, k));
        }
        assert(self.chunk_pixels_in(self.written(buf, c, px), c) =~= px);
    }

    /// Writing a chunk of the window leaves every other chunk of the window as it was.
    pub proof fn law_write_spares_other_chunks(&self, buf: Seq<Pixel>, c: IVec2, px: Seq<Pixel>, d: IVec2)
        requires
            self.wf(),
            self.in_window(c),
            self.in_window(d),
            c != d,
            chunk_coords_fit(c),
            chunk_coords_fit(d),
            buf.len() == self.buffer().len(),
        ensures
            self.chunk_pixels_in(self.written(buf, c, px), d) == self.chunk_pixels_in(buf, d),
    {
        assert forall|k2: int| 0 <= k2 < 4096 implies #[trigger] self.chunk_pixels_in(self.written(buf, c, px), d)[k2]
            == self.chunk_pixels_in(buf, d)[k2] by {
            self.lemma_window_chunk(d, k2);
            assert forall|k1: int| 0 <= k1 < 4096 implies #[trigger] self.slot(chunk_pixel(c, k1)) != self.slot(
                chunk_pixel(d, k2),
            ) by {
                self.lemma_window_chunk(c, k1);
                assert(chunk_pixel(c, k1) != chunk_pixel(d, k2)) by {
                    if c.x != d.x {
                        if c.x < d.x {
                            assert(c.x * 64 + 64 <= d.x * 64);
                        } else {
                            assert(d.x * 64 + 64 <= c.x * 64);
                        }
                    } else {
                        assert(c.y != d.y);
                        if c.y < d.y {
                            assert(c.y * 64 + 64 <= d.y * 64);
                        } else {
                            assert(d.y * 64 + 64 <= c.y * 64);
                        }
                    }
                }
                self.lemma_window_pixel_slots_distinct(chunk_pixel(c, k1), chunk_pixel(d, k2));
            }
            self.lemma_last_writer_none(c, self.slot(chunk_pixel(d, k2)), 4096);
            self.lemma_slot_bounds(chunk_pixel(d, k2));
        }
        assert(self.chunk_pixels_in(self.written(buf, c, px), d) =~= self.chunk_pixels_in(buf, d));
    }

    /// The pixels of chunk `world_chunk`, row by row from its lower corner.
    pub fn read_chunk(&self, world_chunk: IVec2) -> (r: Vec<Pixel>)
        requires
            self.wf(),
            chunk_coords_fit(world_chunk),
        ensures
            r@ == self.chunk_pixels(world_chunk),
    {
        let ox = world_chunk.x * (CHUNK_SIDE as i32);
        let oy = world_chunk.y * (CHUNK_SIDE as i32);
        let mut out: Vec<Pixel> = Vec::new();
        let mut k: usize = 0;
        while k < CHUNK_PIXELS
            invariant
                k <= CHUNK_PIXELS,
                self.wf(),
                chunk_coords_fit(world_chunk),
                ox == world_chunk.x * 64,
                oy == world_chunk.y * 64,
                out@.len() == k,
                forall|j: int| 0 <= j < k ==> out@[j] == self.chunk_pixels(world_chunk)[j],
            decreases CHUNK_PIXELS - k,
        {
            assert(0 <= k / 64 < 64);
            let p = IVec2 { x: ox + (k % CHUNK_SIDE) as i32, y: oy + (k / CHUNK_SIDE) as i32 };
            assert(p == chunk_pixel(world_chunk, k as int));
            out.push(self.get_world_pixel(p));
            k = k + 1;
        }
        assert(out@ =~= self.chunk_pixels(world_chunk));
        out
    }

    /// Writes `pixels`, row by row, as the pixels of chunk `world_chunk`, when that chunk is in
    /// the window; a chunk outside it is left alone.
    pub fn write_chunk(&mut self, world_chunk: IVec2, pixels: &[Pixel])
        requires
            old(self).wf(),
            pixels@.len() == CHUNK_PIXELS,
            old(self).in_window(world_chunk) ==> chunk_coords_fit(world_chunk),
        ensures
            final(self).wf(),
            final(self).grid_config() == old(self).grid_config(),
            final(self).chunk_min() == old(self).chunk_min(),
            final(self).buffer() == (if old(self).in_window(world_chunk) {
                old(self).written(old(self).buffer(), world_chunk, pixels@)
            } else {
                old(self).buffer()
            }),
    {
        if !self.contains_world_chunk(world_chunk) {
            return;
        }
        proof {
            self.lemma_window_chunk(world_chunk, 0);
        }
        let ghost before = *self;
        let ox = world_chunk.x * (CHUNK_SIDE as i32);
        let oy = world_chunk.y * (CHUNK_SIDE as i32);
        let mut k: usize = 0;
        while k < CHUNK_PIXELS
            invariant
                k <= CHUNK_PIXELS,
                before.wf(),
                self.wf(),
                before.in_window(world_chunk),
                chunk_coords_fit(world_chunk),
                pixels@.len() == CHUNK_PIXELS,
                ox == world_chunk.x * 64,
                oy == world_chunk.y * 64,
                self.grid_config() == before.grid_config(),
                self.chunk_min() == before.chunk_min(),
                self.buffer() == before.written_upto(before.buffer(), world_chunk, pixels@, k as int),
            decreases CHUNK_PIXELS - k,
        {
            assert(0 <= k / 64 < 64);
            let p = IVec2 { x: ox + (k % CHUNK_SIDE) as i32, y: oy + (k / CHUNK_SIDE) as i32 };
            assert(p == chunk_pixel(world_chunk, k as int));
            let ghost prev = self.buffer();
            self.set_world_pixel(p, pixels[k]);
            proof {
                let next = before.written_upto(before.buffer(), world_chunk, pixels@, k + 1);
                assert(prev == before.written_upto(before.buffer(), world_chunk, pixels@, k as int));
                assert(self.slot(p) == before.slot(p));
                before.lemma_slot_bounds(p);
                assert forall|i: int| 0 <= i < prev.len() implies #[trigger] self.buffer()[i] == next[i] by {
                    if i == before.slot(p) {
                        assert(before.last_writer(world_chunk, i, k + 1) == Some(k as int));
                    } else {
                        assert(before.last_writer(world_chunk, i, k + 1) == before.last_writer(world_chunk, i, k as int));
                    }
                }
                assert(self.buffer() =~= next);
            }
            k = k + 1;
        }
    }
}

/// The player's position with the pixel window that follows it, and the window moves not yet
/// handed out.
pub struct WorldState {
    pub player_world_pixel: IVec2,
    pub active_grid: ToroidalGrid,
    pending_chunk_window_delta: ChunkWindowDelta,
}

impl WorldState {
    /// The window moves recorded and not yet taken.
    pub closed spec fn pending_entered(&self) -> Seq<IVec2> {
        self.pending_chunk_window_delta.entered_chunks@
    }

    pub closed spec fn pending_exited(&self) -> Seq<IVec2> {
        self.pending_chunk_window_delta.exited_chunks@
    }

    pub closed spec fn player(&self) -> IVec2 {
        self.player_world_pixel
    }

    pub closed spec fn grid(&self) -> ToroidalGrid {
        self.active_grid
    }

    pub open spec fn wf(&self) -> bool {
        self.grid().wf()
    }

    /// Moves the player by `delta` pixels; the window follows and its moves are recorded after
    /// those already pending.
    pub fn move_player_by(&mut self, delta: IVec2)
        requires
            old(self).wf(),
            i32::MIN <= old(self).player().x + delta.x <= i32::MAX,
            i32::MIN <= old(self).player().y + delta.y <= i32::MAX,
        ensures
            final(self).wf(),
            final(self).player().x == old(self).player().x + delta.x,
            final(self).player().y == old(self).player().y + delta.y,
            final(self).grid().grid_config() == old(self).grid().grid_config(),
            final(self).grid().buffer() == old(self).grid().buffer(),
            final(self).grid().chunk_min() == (if delta.x == 0 && delta.y == 0 {
                old(self).grid().chunk_min()
            } else {
                ToroidalGrid::corner_for(old(self).grid().grid_config(), final(self).player())
            }),
            final(self).pending_entered().len() >= old(self).pending_entered().len(),
            final(self).pending_exited().len() >= old(self).pending_exited().len(),
            final(self).pending_entered().subrange(0, old(self).pending_entered().len() as int) == old(
                self,
            ).pending_entered(),
            final(self).pending_exited().subrange(0, old(self).pending_exited().len() as int) == old(
                self,
            ).pending_exited(),
            forall|c: IVec2|
                #[trigger] final(self).pending_entered().subrange(
                    old(self).pending_entered().len() as int,
                    final(self).pending_entered().len() as int,
                ).contains(c) <==> final(self).grid().in_window(c) && !old(self).grid().in_window(c),
            forall|c: IVec2|
                #[trigger] final(self).pending_exited().subrange(
                    old(self).pending_exited().len() as int,
                    final(self).pending_exited().len() as int,
                ).contains(c) <==> old(self).grid().in_window(c) && !final(self).grid().in_window(c),
    {
        if delta.x == 0 && delta.y == 0 {
            proof {
                assert(self.pending_entered().subrange(0, self.pending_entered().len() as int) == self.pending_entered());
                assert(self.pending_exited().subrange(0, self.pending_exited().len() as int) == self.pending_exited());
            }
            return;
        }
        let ghost before = *self;
        self.player_world_pixel = IVec2 {
            x: self.player_world_pixel.x + delta.x,
            y: self.player_world_pixel.y + delta.y,
        };
        let window_delta = self.active_grid.recenter_around(self.player_world_pixel);
        let ghost entered = window_delta.entered_chunks@;
        let ghost exited = window_delta.exited_chunks@;
        self.pending_chunk_window_delta.append(window_delta);
        proof {
            let pe = self.pending_entered();
            let px = self.pending_exited();
            assert(pe.subrange(0, before.pending_entered().len() as int) =~= before.pending_entered());
            assert(px.subrange(0, before.pending_exited().len() as int) =~= before.pending_exited());
            assert(pe.subrange(before.pending_entered().len() as int, pe.len() as int) =~= entered);
            assert(px.subrange(before.pending_exited().len() as int, px.len() as int) =~= exited);
        }
    }

    /// Where the player is on the shown area, in pixels from its lower corner.
    pub fn player_view_pixel(&self) -> (r: IVec2)
        requires
            self.wf(),
            self.grid().shown_min_fits(self.player()),
        ensures
            r.x == self.grid().grid_config().visible_chunks.x * 64 / 2,
            r.y == self.grid().grid_config().visible_chunks.y * 64 / 2,
    {
        let min = self.active_grid.visible_world_pixel_min(self.player_world_pixel);
        IVec2 { x: self.player_world_pixel.x - min.x, y: self.player_world_pixel.y - min.y }
    }

    /// Writes `pixels`, row by row, as chunk `world_chunk` of the window; a chunk outside the
    /// window is left alone.
    pub fn apply_chunk(&mut self, world_chunk: IVec2, pixels: Vec<Pixel>)
        requires
            old(self).wf(),
            pixels@.len() == CHUNK_PIXELS,
            old(self).grid().in_window(world_chunk) ==> chunk_coords_fit(world_chunk),
        ensures
            final(self).wf(),
            final(self).player() == old(self).player(),
            final(self).pending_entered() == old(self).pending_entered(),
            final(self).pending_exited() == old(self).pending_exited(),
            final(self).grid().grid_config() == old(self).grid().grid_config(),
            final(self).grid().chunk_min() == old(self).grid().chunk_min(),
            final(self).grid().buffer() == (if old(self).grid().in_window(world_chunk) {
                old(self).grid().written(old(self).grid().buffer(), world_chunk, pixels@)
            } else {
                old(self).grid().buffer()
            }),
    {
        self.active_grid.write_chunk(world_chunk, pixels.as_slice());
    }

    /// The pixels of chunk `world_chunk` as the window holds them, row by row.
    pub fn extract_chunk(&self, world_chunk: IVec2) -> (r: Option<Vec<Pixel>>)
        requires
            self.wf(),
            chunk_coords_fit(world_chunk),
        ensures
            r matches Some(v) && v@ == self.grid().chunk_pixels(world_chunk),
    {
        Some(self.active_grid.read_chunk(world_chunk))
    }

    /// Hands out the window moves recorded so far and starts a new record.
    pub fn take_chunk_window_delta(&mut self) -> (r: ChunkWindowDelta)
        ensures
            r.entered_chunks@ == old(self).pending_entered(),
            r.exited_chunks@ == old(self).pending_exited(),
            final(self).pending_entered().len() == 0,
            final(self).pending_exited().len() == 0,
            final(self).player() == old(self).player(),
            final(self).grid() == old(self).grid(),
    {
        let mut taken = ChunkWindowDelta::default();
        std::mem::swap(&mut taken, &mut self.pending_chunk_window_delta);
        taken
    }
}

impl Default for WorldState {
    /// The player at the origin, a default window around it, and the whole window pending as
    /// entered.
    fn default() -> (r: Self)
        ensures
            r.wf(),
            r.player() == (IVec2 { x: 0, y: 0 }),
            forall|c: IVec2| r.pending_entered().contains(c) <==> r.grid().in_window(c),
            r.pending_exited().len() == 0,
    {
        let player_world_pixel = IVec2 { x: 0, y: 0 };
        let active_grid = ToroidalGrid::new(ActiveGridConfig::default(), player_world_pixel);
        let pending_chunk_window_delta = active_grid.full_window_delta();
        WorldState { player_world_pixel, active_grid, pending_chunk_window_delta }
    }
}

} // verus!
