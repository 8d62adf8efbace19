use vstd::prelude::*;
use crate::geom::{IVec2, IVec3};

verus! {

/// Side length of a square chunk, in cells.
pub const CHUNK_SIZE: usize = 64;

/// Number of cells in one chunk.
pub const CHUNK_CELL_COUNT: usize = 4096;

/// Biome tag of a chunk.
#[derive(Debug, Clone, Copy, PartialEq, Eq, Structural)]
pub struct ChunkTheme(pub u8);

impl ChunkTheme {
    pub const GRASS_PLAINS: u8 = 0;
    pub const OCEAN: u8 = 1;
    pub const DESERT: u8 = 2;
    pub const CAVE: u8 = 3;
    pub const FOREST: u8 = 4;
    pub const SWAMP: u8 = 5;
    pub const TUNDRA: u8 = 6;
    pub const MOUNTAIN: u8 = 7;
}

/// Integer coordinates of a chunk.
#[derive(Debug, Clone, Copy, PartialEq, Eq, Structural)]
pub struct ChunkKey {
    pub key: IVec3,
}

/// Smallest horizontal chunk coordinate whose cells have `i32` positions: `i32::MIN / 64`.
pub const CHUNK_COORD_MIN: i32 = -33554432;

/// Largest horizontal chunk coordinate whose cells have `i32` positions: `(i32::MAX - 63) / 64`.
pub const CHUNK_COORD_MAX: i32 = 33554431;

/// The cells `c * 64` to `c * 64 + 63` of chunk coordinate `c` have `i32` positions exactly
/// when `c` lies between `CHUNK_COORD_MIN` and `CHUNK_COORD_MAX`.
pub proof fn lemma_chunk_coord_range(c: int)
    ensures
        (i32::MIN <= c * 64 && c * 64 + 63 <= i32::MAX) <==> CHUNK_COORD_MIN <= c <= CHUNK_COORD_MAX,
{
}

impl ChunkKey {
    /// The chunk's cells have positions that fit an `i32`.
    pub open spec fn in_range(self) -> bool {
        &&& CHUNK_COORD_MIN <= self.key.x <= CHUNK_COORD_MAX
        &&& CHUNK_COORD_MIN <= self.key.y <= CHUNK_COORD_MAX
    }

    pub open spec fn cache_key_spec(self) -> (i32, i32, i32) {
        (self.key.x, self.key.y, self.key.z)
    }

    pub open spec fn from_cache_key_spec(k: (i32, i32, i32)) -> ChunkKey {
        ChunkKey { key: IVec3 { x: k.0, y: k.1, z: k.2 } }
    }

    /// The coordinates as a tuple, the form in which the chunk cache hashes them.
    pub fn cache_key(&self) -> (r: (i32, i32, i32))
        ensures
            r == self.cache_key_spec(),
    {
        (self.key.x, self.key.y, self.key.z)
    }

    pub fn from_cache_key(k: (i32, i32, i32)) -> (r: ChunkKey)
        ensures
            r == Self::from_cache_key_spec(k),
            r.cache_key_spec() == k,
    {
        ChunkKey { key: IVec3 { x: k.0, y: k.1, z: k.2 } }
    }

    /// The chunk's horizontal coordinates.
    pub fn to_ivec2(&self) -> (r: IVec2)
        ensures
            r.x == self.key.x,
            r.y == self.key.y,
    {
        IVec2 { x: self.key.x, y: self.key.y }
    }
}

/// `a` comes before `b` when keys are ordered by layer, then row, then column.
pub open spec fn key_precedes(a: ChunkKey, b: ChunkKey) -> bool {
    precedes_at(a, b.key.z as int, b.key.y as int, b.key.x as int)
}

/// `a` comes before the position `(x, y, z)` in layer, row, column order.
pub open spec fn precedes_at(a: ChunkKey, z: int, y: int, x: int) -> bool {
    ||| a.key.z < z
    ||| a.key.z == z && a.key.y < y
    ||| a.key.z == z && a.key.y == y && a.key.x < x
}

/// An inclusive box of chunk coordinates.
#[derive(Debug, Clone, Copy, PartialEq, Eq, Structural)]
pub struct ChunkView {
    pub min: ChunkKey,
    pub max: ChunkKey,
}

impl ChunkView {
    /// The box spanning `radius_x` chunks on each side of `center` along x, `radius_y` along y,
    /// in the layer of `center`.
    pub open spec fn from_rect_xy_spec(center: ChunkKey, radius_x: int, radius_y: int) -> ChunkView {
        ChunkView {
            min: ChunkKey {
                key: IVec3 {
                    x: (center.key.x - radius_x) as i32,
                    y: (center.key.y - radius_y) as i32,
                    z: center.key.z,
                },
            },
            max: ChunkKey {
                key: IVec3 {
                    x: (center.key.x + radius_x) as i32,
                    y: (center.key.y + radius_y) as i32,
                    z: center.key.z,
                },
            },
        }
    }

    pub fn from_rect_xy(center: ChunkKey, radius_x: i32, radius_y: i32) -> (r: ChunkView)
        requires
            i32::MIN <= center.key.x - radius_x <= i32::MAX,
            i32::MIN <= center.key.x + radius_x <= i32::MAX,
            i32::MIN <= center.key.y - radius_y <= i32::MAX,
            i32::MIN <= center.key.y + radius_y <= i32::MAX,
        ensures
            r == Self::from_rect_xy_spec(center, radius_x as int, radius_y as int),
    {
        ChunkView {
            min: ChunkKey {
                key: IVec3 { x: center.key.x - radius_x, y: center.key.y - radius_y, z: center.key.z },
            },
            max: ChunkKey {
                key: IVec3 { x: center.key.x + radius_x, y: center.key.y + radius_y, z: center.key.z },
            },
        }
    }

    /// The box spanning `r_chunks` chunks on each side of `center` along x and z and `y_chunks`
    /// along y. A caller holding a world position and radii passes the chunk holding the
    /// position and each radius divided by the chunk size, rounded up.
    pub fn new_flat(center: ChunkKey, r_chunks: i32, y_chunks: i32) -> (r: ChunkView)
        requires
            i32::MIN <= center.key.x - r_chunks <= i32::MAX,
            i32::MIN <= center.key.x + r_chunks <= i32::MAX,
            i32::MIN <= center.key.y - y_chunks <= i32::MAX,
            i32::MIN <= center.key.y + y_chunks <= i32::MAX,
            i32::MIN <= center.key.z - r_chunks <= i32::MAX,
            i32::MIN <= center.key.z + r_chunks <= i32::MAX,
        ensures
            r.min.key == (IVec3 {
                x: (center.key.x - r_chunks) as i32,
                y: (center.key.y - y_chunks) as i32,
                z: (center.key.z - r_chunks) as i32,
            }),
            r.max.key == (IVec3 {
                x: (center.key.x + r_chunks) as i32,
                y: (center.key.y + y_chunks) as i32,
                z: (center.key.z + r_chunks) as i32,
            }),
    {
        ChunkView {
            min: ChunkKey {
                key: IVec3 { x: center.key.x - r_chunks, y: center.key.y - y_chunks, z: center.key.z - r_chunks },
            },
            max: ChunkKey {
                key: IVec3 { x: center.key.x + r_chunks, y: center.key.y + y_chunks, z: center.key.z + r_chunks },
            },
        }
    }

    /// The cube spanning `r_chunks` chunks on each side of `center` along every axis.
    pub fn new_cubic(center: ChunkKey, r_chunks: i32) -> (r: ChunkView)
        requires
            i32::MIN <= center.key.x - r_chunks <= i32::MAX,
            i32::MIN <= center.key.x + r_chunks <= i32::MAX,
            i32::MIN <= center.key.y - r_chunks <= i32::MAX,
            i32::MIN <= center.key.y + r_chunks <= i32::MAX,
            i32::MIN <= center.key.z - r_chunks <= i32::MAX,
            i32::MIN <= center.key.z + r_chunks <= i32::MAX,
        ensures
            r.min.key == (IVec3 {
                x: (center.key.x - r_chunks) as i32,
                y: (center.key.y - r_chunks) as i32,
                z: (center.key.z - r_chunks) as i32,
            }),
            r.max.key == (IVec3 {
                x: (center.key.x + r_chunks) as i32,
                y: (center.key.y + r_chunks) as i32,
                z: (center.key.z + r_chunks) as i32,
            }),
    {
        Self::new_flat(center, r_chunks, r_chunks)
    }

    /// Every key of the box, layer by layer, row by row, x fastest.
    pub fn keys(&self) -> (r: Vec<ChunkKey>)
        ensures
            forall|k: ChunkKey| r@.contains(k) <==> self.contains_spec(k),
            forall|i: int, j: int| 0 <= i < j < r@.len() ==> key_precedes(r@[i], r@[j]),
    {
        let mut out: Vec<ChunkKey> = Vec::new();
        let mut z: i64 = self.min.key.z as i64;
        while z <= self.max.key.z as i64
            invariant
                self.min.key.z <= z,
                forall|k: ChunkKey| out@.contains(k) <==> self.contains_spec(k) && precedes_at(k, z as int, i32::MIN as int, i32::MIN as int),
                forall|i: int, j: int| 0 <= i < j < out@.len() ==> key_precedes(out@[i], out@[j]),
                forall|i: int| 0 <= i < out@.len() ==> precedes_at(#[trigger] out@[i], z as int, i32::MIN as int, i32::MIN as int),
            decreases self.max.key.z + 1 - z,
        {
            let mut y: i64 = self.min.key.y as i64;
            while y <= self.max.key.y as i64
                invariant
                    self.min.key.z <= z <= self.max.key.z,
                    self.min.key.y <= y,
                    forall|k: ChunkKey| out@.contains(k) <==> self.contains_spec(k) && precedes_at(k, z as int, y as int, i32::MIN as int),
                    forall|i: int, j: int| 0 <= i < j < out@.len() ==> key_precedes(out@[i], out@[j]),
                    forall|i: int| 0 <= i < out@.len() ==> precedes_at(#[trigger] out@[i], z as int, y as int, i32::MIN as int),
                decreases self.max.key.y + 1 - y,
            {
                let mut x: i64 = self.min.key.x as i64;
                while x <= self.max.key.x as i64
                    invariant
                        self.min.key.z <= z <= self.max.key.z,
                        self.min.key.y <= y <= self.max.key.y,
                        self.min.key.x <= x,
                        forall|k: ChunkKey| out@.contains(k) <==> self.contains_spec(k) && precedes_at(k, z as int, y as int, x as int),
                        forall|i: int, j: int| 0 <= i < j < out@.len() ==> key_precedes(out@[i], out@[j]),
                        forall|i: int| 0 <= i < out@.len() ==> precedes_at(#[trigger] out@[i], z as int, y as int, x as int),
                    decreases self.max.key.x + 1 - x,
                {
                    let k = ChunkKey { key: IVec3 { x: x as i32, y: y as i32, z: z as i32 } };
                    assert(k.key.x == x && k.key.y == y && k.key.z == z);
                    assert(self.contains_spec(k));
                    let ghost before = out@;
                    out.push(k);
                    proof {
                        assert(out@ == before.push(k));
                        assert forall|c: ChunkKey| out@.contains(c) implies self.contains_spec(c) && precedes_at(c, z as int, y as int, x + 1) by {
                            let i = choose|i: int| 0 <= i < out@.len() && out@[i] == c;
                            if i < before.len() {
                                assert(before[i] == c);
                                assert(before.contains(c));
                            } else {
                                assert(c == k);
                            }
                        }
                        assert forall|c: ChunkKey| self.contains_spec(c) && precedes_at(c, z as int, y as int, x + 1) implies out@.contains(c) by {
                            if c.key.z == z && c.key.y == y && c.key.x == x {
                                assert(c.key == k.key);
                                assert(out@[out@.len() - 1] == c);
                            } else {
                                assert(before.contains(c));
                                let i = choose|i: int| 0 <= i < before.len() && before[i] == c;
                                assert(out@[i] == c);
                            }
                        }
                    }
                    x = x + 1;
                }
                proof {
                    assert forall|c: ChunkKey| #[trigger] precedes_at(c, z as int, y as int, x as int) && self.contains_spec(c) <==> precedes_at(c, z as int, y + 1, i32::MIN as int) && self.contains_spec(c) by {}
                }
                y = y + 1;
            }
            z = z + 1;
        }
        out
    }

    pub open spec fn contains_spec(&self, c: ChunkKey) -> bool {
        &&& self.min.key.x <= c.key.x <= self.max.key.x
        &&& self.min.key.y <= c.key.y <= self.max.key.y
        &&& self.min.key.z <= c.key.z <= self.max.key.z
    }

    /// True when `chunk` lies in the box, bounds included.
    pub fn contains(&self, chunk: &ChunkKey) -> (r: bool)
        ensures
            r == self.contains_spec(*chunk),
    {
        chunk.key.x >= self.min.key.x && chunk.key.x <= self.max.key.x && chunk.key.y >= self.min.key.y
            && chunk.key.y <= self.max.key.y && chunk.key.z >= self.min.key.z && chunk.key.z
            <= self.max.key.z
    }
}

} // verus!
