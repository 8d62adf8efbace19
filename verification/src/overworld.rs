use vstd::prelude::*;

verus! {

/// Integer coordinates of a chunk of the top-down overworld.
#[derive(Debug, Clone, Copy, PartialEq, Eq, Structural, Hash)]
pub struct ChunkKey {
    pub x: i32,
    pub y: i32,
    pub z: i32,
}

impl ChunkKey {
    /// The chunk at the world's origin.
    pub fn origin() -> (r: ChunkKey)
        ensures
            r == (ChunkKey { x: 0, y: 0, z: 0 }),
    {
        ChunkKey { x: 0, y: 0, z: 0 }
    }
}

/// What the ground of a chunk is made of.
#[derive(Debug, Clone, Copy, PartialEq, Eq, Structural)]
pub enum BaseMaterial {
    Grass,
    Water,
    Stone,
    DarkSoil,
}

/// How the player crosses the ground of a chunk.
#[derive(Debug, Clone, Copy, PartialEq, Eq, Structural)]
pub enum SurfaceTraversal {
    Walk,
    Swim,
    Blocked,
}

/// The ground of a chunk.
#[derive(Debug, Clone, Copy, PartialEq, Eq, Structural)]
pub struct BaseLayer {
    pub material: BaseMaterial,
    pub traversal: SurfaceTraversal,
}

impl BaseLayer {
    pub fn new(material: BaseMaterial, traversal: SurfaceTraversal) -> (r: Self)
        ensures
            r.material == material,
            r.traversal == traversal,
    {
        BaseLayer { material, traversal }
    }
}

/// The biome of a chunk.
#[derive(Debug, Clone, Copy, PartialEq, Eq, Structural)]
pub enum ChunkTheme {
    Dark,
    GrassPlane,
    Cave,
    Ocean,
}

impl ChunkTheme {
    pub open spec fn base_layer_spec(self) -> BaseLayer {
        match self {
            ChunkTheme::Dark => BaseLayer { material: BaseMaterial::DarkSoil, traversal: SurfaceTraversal::Walk },
            ChunkTheme::GrassPlane => BaseLayer { material: BaseMaterial::Grass, traversal: SurfaceTraversal::Walk },
            ChunkTheme::Cave => BaseLayer { material: BaseMaterial::Stone, traversal: SurfaceTraversal::Walk },
            ChunkTheme::Ocean => BaseLayer { material: BaseMaterial::Water, traversal: SurfaceTraversal::Swim },
        }
    }

    /// The ground every chunk of this biome has: oceans are swum, the rest walked.
    pub fn base_layer(self) -> (r: BaseLayer)
        ensures
            r == self.base_layer_spec(),
    {
        match self {
            ChunkTheme::Dark => BaseLayer::new(BaseMaterial::DarkSoil, SurfaceTraversal::Walk),
            ChunkTheme::GrassPlane => BaseLayer::new(BaseMaterial::Grass, SurfaceTraversal::Walk),
            ChunkTheme::Cave => BaseLayer::new(BaseMaterial::Stone, SurfaceTraversal::Walk),
            ChunkTheme::Ocean => BaseLayer::new(BaseMaterial::Water, SurfaceTraversal::Swim),
        }
    }
}

/// Identifies a placed object of the world, stable across saves.
#[derive(Debug, Clone, Copy, PartialEq, Eq, Structural, Hash)]
pub struct WorldObjectId(pub u64);

/// The kinds of procedurally placed objects.
#[derive(Debug, Clone, Copy, PartialEq, Eq, Structural)]
pub enum ProcAssetKind {
    Tree,
    Bush,
    Grass,
    Rock,
    DirtPatch,
}

/// Whether an object stops movement.
#[derive(Debug, Clone, Copy, PartialEq, Eq, Structural)]
pub enum CollisionKind {
    Passable,
    Blocking,
}

/// Whether an object can be destroyed.
#[derive(Debug, Clone, Copy, PartialEq, Eq, Structural)]
pub enum InteractionKind {
    Inert,
    Destructible,
}

impl ProcAssetKind {
    /// Rocks and trees block movement; bushes, grass and dirt patches do not.
    pub fn collision(self) -> (r: CollisionKind)
        ensures
            r == (if self == ProcAssetKind::Rock || self == ProcAssetKind::Tree {
                CollisionKind::Blocking
            } else {
                CollisionKind::Passable
            }),
    {
        match self {
            ProcAssetKind::Rock | ProcAssetKind::Tree => CollisionKind::Blocking,
            ProcAssetKind::Bush | ProcAssetKind::Grass | ProcAssetKind::DirtPatch => CollisionKind::Passable,
        }
    }

    /// Only bushes can be destroyed.
    pub fn interaction(self) -> (r: InteractionKind)
        ensures
            r == (if self == ProcAssetKind::Bush {
                InteractionKind::Destructible
            } else {
                InteractionKind::Inert
            }),
    {
        match self {
            ProcAssetKind::Bush => InteractionKind::Destructible,
            ProcAssetKind::Tree | ProcAssetKind::Grass | ProcAssetKind::Rock | ProcAssetKind::DirtPatch => InteractionKind::Inert,
        }
    }
}

/// The objects the player removed from a chunk, kept sorted by id.
pub struct ChunkMutation {
    pub removed_object_ids: Vec<WorldObjectId>,
}

impl Default for ChunkMutation {
    fn default() -> (r: Self)
        ensures
            r.removed_object_ids@.len() == 0,
    {
        ChunkMutation { removed_object_ids: Vec::new() }
    }
}

impl ChunkMutation {
    /// The ids are sorted.
    pub open spec fn wf(&self) -> bool {
        forall|i: int, j: int|
            0 <= i < j < self.removed_object_ids@.len() ==> (#[trigger] self.removed_object_ids@[i]).0
                <= (#[trigger] self.removed_object_ids@[j]).0
    }

    pub open spec fn removed(&self, id: WorldObjectId) -> bool {
        self.removed_object_ids@.contains(id)
    }

    /// Whether `object_id` was removed, found by binary search.
    pub fn is_removed(&self, object_id: WorldObjectId) -> (r: bool)
        requires
            self.wf(),
        ensures
            r == self.removed(object_id),
    {
        let ids = &self.removed_object_ids;
        let mut lo: usize = 0;
        let mut hi: usize = ids.len();
        while lo < hi
            invariant
                lo <= hi <= ids@.len(),
                self.wf(),
                ids@ == self.removed_object_ids@,
                forall|i: int| 0 <= i < lo ==> (#[trigger] ids@[i]).0 < object_id.0,
                forall|i: int| hi <= i < ids@.len() ==> (#[trigger] ids@[i]).0 > object_id.0,
            decreases hi - lo,
        {
            let mid = lo + (hi - lo) / 2;
            let v = ids[mid].0;
            if v == object_id.0 {
                proof {
                    assert(ids@[mid as int] == object_id);
                }
                return true;
            } else if v < object_id.0 {
                lo = mid + 1;
            } else {
                hi = mid;
            }
        }
        proof {
            if self.removed(object_id) {
                let i = choose|i: int| 0 <= i < ids@.len() && ids@[i] == object_id;
                assert(ids@[i].0 == object_id.0);
            }
        }
        false
    }

    /// Records `object_id` as removed, keeping the ids sorted; a repeated removal changes
    /// nothing.
    pub fn remove_object(&mut self, object_id: WorldObjectId)
        requires
            old(self).wf(),
        ensures
            final(self).wf(),
            forall|id: WorldObjectId| #[trigger] final(self).removed(id) <==> old(self).removed(id) || id == object_id,
            old(self).removed(object_id) ==> final(self).removed_object_ids@ == old(self).removed_object_ids@,
            !old(self).removed(object_id) ==> final(self).removed_object_ids@.to_multiset() == old(
                self,
            ).removed_object_ids@.to_multiset().insert(object_id),
    {
        if self.is_removed(object_id) {
            return;
        }
        let mut pos: usize = 0;
        while pos < self.removed_object_ids.len() && self.removed_object_ids[pos].0 < object_id.0
            invariant
                pos <= self.removed_object_ids@.len(),
                forall|i: int| 0 <= i < pos ==> (#[trigger] self.removed_object_ids@[i]).0 < object_id.0,
            decreases self.removed_object_ids@.len() - pos,
        {
            pos = pos + 1;
        }
        let ghost before = self.removed_object_ids@;
        self.removed_object_ids.insert(pos, object_id);
        proof {
            let after = self.removed_object_ids@;
            assert(after == before.insert(pos as int, object_id));
            vstd::seq_lib::to_multiset_insert(before, pos as int, object_id);
            assert forall|i: int| pos <= i < before.len() implies (#[trigger] before[i]).0 > object_id.0 by {
                if i > pos {
                    assert(before[pos as int].0 <= before[i].0);
                }
                assert(before[i] != object_id) by {
                    if before[i] == object_id {
                        assert(before.contains(object_id));
                    }
                }
            }
            assert forall|i: int, j: int| 0 <= i < j < after.len() implies (#[trigger] after[i]).0 <= (#[trigger] after[j]).0 by {
                if j < pos {
                    assert(after[i] == before[i] && after[j] == before[j]);
                } else if j == pos {
                    assert(after[i] == before[i]);
                } else if i == pos {
                    assert(after[j] == before[j - 1]);
                } else if i < pos {
                    assert(after[i] == before[i] && after[j] == before[j - 1]);
                } else {
                    assert(after[i] == before[i - 1] && after[j] == before[j - 1]);
                }
            }
            assert forall|id: WorldObjectId| #[trigger] after.contains(id) <==> before.contains(id) || id == object_id by {
                if after.contains(id) {
                    let i = choose|i: int| 0 <= i < after.len() && after[i] == id;
                    if i < pos {
                        assert(before[i] == id);
                    } else if i > pos {
                        assert(before[i - 1] == id);
                    }
                }
                if before.contains(id) {
                    let i = choose|i: int| 0 <= i < before.len() && before[i] == id;
                    if i < pos {
                        assert(after[i] == id);
                    } else {
                        assert(after[i + 1] == id);
                    }
                }
                if id == object_id {
                    assert(after[pos as int] == id);
                }
            }
        }
    }
}

/// An inclusive box of overworld chunks.
#[derive(Debug, Clone, Copy, PartialEq, Eq, Structural)]
pub struct ChunkView {
    pub min: ChunkKey,
    pub max: ChunkKey,
}

/// `a` comes before `b` when keys are read row by row.
pub open spec fn row_precedes(a: ChunkKey, b: ChunkKey) -> bool {
    a.y < b.y || (a.y == b.y && a.x < b.x)
}

impl ChunkView {
    /// The square of side `2 * radius + 1` around `center`, in its layer.
    pub fn around(center: ChunkKey, radius: i32) -> (r: ChunkView)
        requires
            i32::MIN <= center.x - radius <= i32::MAX,
            i32::MIN <= center.x + radius <= i32::MAX,
            i32::MIN <= center.y - radius <= i32::MAX,
            i32::MIN <= center.y + radius <= i32::MAX,
        ensures
            r.min == (ChunkKey { x: (center.x - radius) as i32, y: (center.y - radius) as i32, z: center.z }),
            r.max == (ChunkKey { x: (center.x + radius) as i32, y: (center.y + radius) as i32, z: center.z }),
    {
        ChunkView {
            min: ChunkKey { x: center.x - radius, y: center.y - radius, z: center.z },
            max: ChunkKey { x: center.x + radius, y: center.y + radius, z: center.z },
        }
    }

    /// The chunk lies in the box's rows and columns, in the layer of `min`.
    pub open spec fn covers(&self, k: ChunkKey) -> bool {
        &&& self.min.x <= k.x <= self.max.x
        &&& self.min.y <= k.y <= self.max.y
        &&& k.z == self.min.z
    }

    /// How many columns the box spans.
    pub open spec fn columns(&self) -> int {
        if self.min.x <= self.max.x {
            self.max.x - self.min.x + 1
        } else {
            0
        }
    }

    /// How many rows the box spans.
    pub open spec fn rows(&self) -> int {
        if self.min.y <= self.max.y {
            self.max.y - self.min.y + 1
        } else {
            0
        }
    }

    /// Every chunk of the box, row by row, in the layer of `min`.
    pub fn keys(self) -> (r: Vec<ChunkKey>)
        ensures
            forall|k: ChunkKey| r@.contains(k) <==> self.covers(k),
            forall|i: int, j: int| 0 <= i < j < r@.len() ==> row_precedes(r@[i], r@[j]),
            r@.len() == self.columns() * self.rows(),
    {
        let mut keys: Vec<ChunkKey> = Vec::new();
        let mut y: i64 = self.min.y as i64;
        while y <= self.max.y as i64
            invariant
                self.min.y <= y,
                y <= self.max.y + 1 || self.max.y < self.min.y,
                self.max.y < self.min.y ==> y == self.min.y,
                keys@.len() == self.columns() * (y - self.min.y),
                forall|k: ChunkKey| keys@.contains(k) <==> self.covers(k) && k.y < y,
                forall|i: int, j: int| 0 <= i < j < keys@.len() ==> row_precedes(keys@[i], keys@[j]),
                forall|i: int| 0 <= i < keys@.len() ==> (#[trigger] keys@[i]).y < y,
            decreases self.max.y + 1 - y,
        {
            let mut x: i64 = self.min.x as i64;
            while x <= self.max.x as i64
                invariant
                    self.min.y <= y <= self.max.y,
                    self.min.x <= x,
                    x <= self.max.x + 1 || self.max.x < self.min.x,
                    self.max.x < self.min.x ==> x == self.min.x,
                    keys@.len() == self.columns() * (y - self.min.y) + (x - self.min.x),
                    forall|k: ChunkKey| keys@.contains(k) <==> self.covers(k) && (k.y < y || (k.y == y && k.x < x)),
                    forall|i: int, j: int| 0 <= i < j < keys@.len() ==> row_precedes(keys@[i], keys@[j]),
                    forall|i: int|
                        0 <= i < keys@.len() ==> (#[trigger] keys@[i]).y < y || (keys@[i].y == y && keys@[i].x < x),
                decreases self.max.x + 1 - x,
            {
                let k = ChunkKey { x: x as i32, y: y as i32, z: self.min.z };
                assert(k.x == x && k.y == y);
                let ghost before = keys@;
                keys.push(k);
                proof {
                    assert(keys@ == before.push(k));
                    assert forall|c: ChunkKey| keys@.contains(c) implies self.covers(c) && (c.y < y || (c.y == y && c.x
                        < x + 1)) by {
                        let i = choose|i: int| 0 <= i < keys@.len() && keys@[i] == c;
                        if i < before.len() {
                            assert(before[i] == c);
                            assert(before.contains(c));
                        }
                    }
                    assert forall|c: ChunkKey| self.covers(c) && (c.y < y || (c.y == y && c.x < x + 1)) implies keys@.contains(
                        c,
                    ) by {
                        if c.y == y && c.x == x {
                            assert(keys@[keys@.len() - 1] == c);
                        } else {
                            assert(before.contains(c));
                            let i = choose|i: int| 0 <= i < before.len() && before[i] == c;
                            assert(keys@[i] == c);
                        }
                    }
                }
                x = x + 1;
            }
            proof {
                let w = self.columns();
                let d = y - self.min.y;
                if self.min.x <= self.max.x {
                    assert(x - self.min.x == w);
                } else {
                    assert(x - self.min.x == 0 && w == 0);
                }
                assert(w * d + w == w * (d + 1)) by (nonlinear_arith);
            }
            y = y + 1;
        }
        proof {
            if self.min.y <= self.max.y {
                assert(y - self.min.y == self.rows());
            } else {
                assert(y == self.min.y && self.rows() == 0);
            }
        }
        keys
    }
}

/// The chunks within `radius` of `center`, row by row.
pub fn active_chunk_keys(center: ChunkKey, radius: i32) -> (r: Vec<ChunkKey>)
    requires
        i32::MIN <= center.x - radius <= i32::MAX,
        i32::MIN <= center.x + radius <= i32::MAX,
        i32::MIN <= center.y - radius <= i32::MAX,
        i32::MIN <= center.y + radius <= i32::MAX,
    ensures
        forall|k: ChunkKey|
            r@.contains(k) <==> center.x - radius <= k.x <= center.x + radius && center.y - radius <= k.y
                <= center.y + radius && k.z == center.z,
        forall|i: int, j: int| 0 <= i < j < r@.len() ==> row_precedes(r@[i], r@[j]),
        r@.len() == if radius >= 0 {
            (2 * radius + 1) * (2 * radius + 1)
        } else {
            0
        },
{
    let view = ChunkView::around(center, radius);
    let keys = view.keys();
    proof {
        assert forall|k: ChunkKey|
            keys@.contains(k) <==> center.x - radius <= k.x <= center.x + radius && center.y - radius <= k.y
                <= center.y + radius && k.z == center.z by {
            assert(view.covers(k) == (center.x - radius <= k.x <= center.x + radius && center.y - radius <= k.y
                <= center.y + radius && k.z == center.z));
        }
    }
    keys
}

/// What keeping the overworld streamed around the player takes: chunks to bring into the store,
/// in window order, and chunks to drop from it, in the order the store lists them.
pub struct StreamPlan {
    pub load: Vec<ChunkKey>,
    pub drop: Vec<ChunkKey>,
}

/// The chunk lies within `radius` of `center`, in its layer.
pub open spec fn in_window(center: ChunkKey, radius: int, k: ChunkKey) -> bool {
    center.x - radius <= k.x <= center.x + radius && center.y - radius <= k.y <= center.y + radius && k.z
        == center.z
}

/// The chunks outside the window of `radius` around `center`.
pub open spec fn outside_window(center: ChunkKey, radius: int) -> spec_fn(ChunkKey) -> bool {
    |k: ChunkKey| !in_window(center, radius, k)
}

fn contains_key(keys: &Vec<ChunkKey>, k: ChunkKey) -> (r: bool)
    ensures
        r == keys@.contains(k),
{
    let mut i: usize = 0;
    while i < keys.len()
        invariant
            i <= keys@.len(),
            forall|j: int| 0 <= j < i ==> keys@[j] != k,
        decreases keys@.len() - i,
    {
        if keys[i] == k {
            return true;
        }
        i = i + 1;
    }
    false
}

/// Which chunks to bring in and which to drop so that the store holds exactly the window of
/// `radius` around `center`, given the chunks it holds now.
pub fn plan_stream(center: ChunkKey, radius: i32, stored: &Vec<ChunkKey>) -> (r: StreamPlan)
    requires
        i32::MIN <= center.x - radius <= i32::MAX,
        i32::MIN <= center.x + radius <= i32::MAX,
        i32::MIN <= center.y - radius <= i32::MAX,
        i32::MIN <= center.y + radius <= i32::MAX,
    ensures
        forall|k: ChunkKey| r.load@.contains(k) <==> in_window(center, radius as int, k) && !stored@.contains(k),
        forall|i: int, j: int| 0 <= i < j < r.load@.len() ==> row_precedes(r.load@[i], r.load@[j]),
        r.drop@ == stored@.filter(outside_window(center, radius as int)),
        stored@.len() == 0 ==> r.load@.len() == if radius >= 0 {
            (2 * radius + 1) * (2 * radius + 1)
        } else {
            0
        },
{
    let active = active_chunk_keys(center, radius);
    let mut load: Vec<ChunkKey> = Vec::new();
    let mut i: usize = 0;
    while i < active.len()
        invariant
            i <= active@.len(),
            forall|k: ChunkKey| active@.contains(k) <==> in_window(center, radius as int, k),
            forall|a: int, b: int| 0 <= a < b < active@.len() ==> row_precedes(active@[a], active@[b]),
            forall|k: ChunkKey| load@.contains(k) <==> active@.subrange(0, i as int).contains(k) && !stored@.contains(k),
            forall|a: int, b: int| 0 <= a < b < load@.len() ==> row_precedes(load@[a], load@[b]),
            forall|a: int| 0 <= a < load@.len() ==> active@.subrange(0, i as int).contains(#[trigger] load@[a]),
            stored@.len() == 0 ==> load@.len() == i,
        decreases active@.len() - i,
    {
        let k = active[i];
        let ghost before = load@;
        proof {
            assert forall|y: ChunkKey| active@.subrange(0, i + 1).contains(y) <==> active@.subrange(0, i as int).contains(y) || y == k by {
                if active@.subrange(0, i + 1).contains(y) {
                    let a = choose|a: int| 0 <= a < i + 1 && #[trigger] active@.subrange(0, i + 1)[a] == y;
                    if a < i {
                        assert(active@.subrange(0, i as int)[a] == y);
                    }
                }
                if active@.subrange(0, i as int).contains(y) {
                    let a = choose|a: int| 0 <= a < i && #[trigger] active@.subrange(0, i as int)[a] == y;
                    assert(active@.subrange(0, i + 1)[a] == y);
                }
                if y == k {
                    assert(active@.subrange(0, i + 1)[i as int] == y);
                }
            }
        }
        if !contains_key(stored, k) {
            load.push(k);
            proof {
                assert forall|a: int, b: int| 0 <= a < b < load@.len() implies row_precedes(load@[a], load@[b]) by {
                    if b == before.len() {
                        assert(active@.subrange(0, i as int).contains(before[a]));
                        let c = choose|c: int| 0 <= c < i && #[trigger] active@.subrange(0, i as int)[c] == before[a];
                        assert(active@[c] == before[a]);
                    } else {
                        assert(load@[a] == before[a] && load@[b] == before[b]);
                    }
                }
                assert forall|y: ChunkKey| load@.contains(y) <==> before.contains(y) || y == k by {
                    if load@.contains(y) {
                        let a = choose|a: int| 0 <= a < load@.len() && load@[a] == y;
                        if a < before.len() {
                            assert(before[a] == y);
                        }
                    }
                    if before.contains(y) {
                        let a = choose|a: int| 0 <= a < before.len() && before[a] == y;
                        assert(load@[a] == y);
                    }
                    if y == k {
                        assert(load@[before.len() as int] == y);
                    }
                }
                assert forall|a: int| 0 <= a < load@.len() implies active@.subrange(0, i + 1).contains(#[trigger] load@[a]) by {
                    if a < before.len() {
                        assert(load@[a] == before[a]);
                    }
                }
            }
        } else {
            proof {
                assert forall|a: int| 0 <= a < load@.len() implies active@.subrange(0, i + 1).contains(#[trigger] load@[a]) by {
                }
            }
        }
        i = i + 1;
    }
    proof {
        assert(active@.subrange(0, active@.len() as int) == active@);
    }
    let mut drop: Vec<ChunkKey> = Vec::new();
    let mut j: usize = 0;
    while j < stored.len()
        invariant
            j <= stored@.len(),
            drop@ == stored@.subrange(0, j as int).filter(outside_window(center, radius as int)),
        decreases stored@.len() - j,
    {
        let k = stored[j];
        let inside = k.z == center.z && center.x as i64 - radius as i64 <= k.x as i64 && k.x as i64 <= center.x as i64
            + radius as i64 && center.y as i64 - radius as i64 <= k.y as i64 && k.y as i64 <= center.y as i64
            + radius as i64;
        let ghost prev = drop@;
        if !inside {
            drop.push(k);
        }
        proof {
            let s1 = stored@.subrange(0, j + 1);
            assert(s1.drop_last() == stored@.subrange(0, j as int));
            assert(s1.last() == k);
            assert(inside == in_window(center, radius as int, k));
            reveal(Seq::filter);
            assert(s1.filter(outside_window(center, radius as int)) == (if outside_window(center, radius as int)(k) {
                prev.push(k)
            } else {
                prev
            }));
        }
        j = j + 1;
    }
    proof {
        assert(stored@.subrange(0, stored@.len() as int) == stored@);
    }
    StreamPlan { load, drop }
}

/// Default seed of the overworld.
pub const DEFAULT_WORLD_SEED: u64 = 7;

/// Default radius, in chunks, of the area kept around the player.
pub const DEFAULT_ACTIVE_CHUNK_RADIUS: i32 = 1;

/// Default number of procedural objects per chunk.
pub const DEFAULT_MAX_PROC_ASSETS_PER_CHUNK: u8 = 6;

pub open spec fn mix_seed_spec(seed: u64, key: ChunkKey) -> u64 {
    seed ^ ((key.x as i64) as u64).wrapping_mul(0x9E37_79B1u64) ^ ((key.y as i64) as u64).wrapping_mul(
        0x85EB_CA77u64,
    ) ^ ((key.z as i64) as u64).wrapping_mul(0xC2B2_AE3Du64)
}

/// Mixes a chunk's coordinates into `seed`: each coordinate, sign-extended to 64 bits, is
/// multiplied (wrapping) by its own odd constant and xor-ed in.
pub fn mix_seed(seed: u64, key: ChunkKey) -> (r: u64)
    ensures
        r == mix_seed_spec(seed, key),
{
    seed ^ ((key.x as i64 as u64).wrapping_mul(0x9E37_79B1)) ^ ((key.y as i64 as u64).wrapping_mul(0x85EB_CA77))
        ^ ((key.z as i64 as u64).wrapping_mul(0xC2B2_AE3D))
}

pub open spec fn select_theme_spec(world_seed: u64, key: ChunkKey) -> ChunkTheme {
    if key == (ChunkKey { x: 0, y: 0, z: 0 }) {
        ChunkTheme::GrassPlane
    } else {
        let m = mix_seed_spec(world_seed, key) % 4;
        if m == 0 {
            ChunkTheme::GrassPlane
        } else if m == 1 {
            ChunkTheme::Dark
        } else if m == 2 {
            ChunkTheme::Cave
        } else {
            ChunkTheme::Ocean
        }
    }
}

/// The biome of chunk `key`: grass plains at the origin, elsewhere picked by the mixed seed.
pub fn select_theme(world_seed: u64, key: ChunkKey) -> (r: ChunkTheme)
    ensures
        r == select_theme_spec(world_seed, key),
{
    if key == ChunkKey::origin() {
        return ChunkTheme::GrassPlane;
    }
    let m = mix_seed(world_seed, key) % 4;
    if m == 0 {
        ChunkTheme::GrassPlane
    } else if m == 1 {
        ChunkTheme::Dark
    } else if m == 2 {
        ChunkTheme::Cave
    } else {
        ChunkTheme::Ocean
    }
}

/// What is decided about a procedural object before it is placed: its id, kind, intensity and
/// look.
#[derive(Debug, Clone, Copy, PartialEq, Eq, Structural)]
pub struct AssetSpec {
    pub id: WorldObjectId,
    pub kind: ProcAssetKind,
    pub intensity: u8,
    pub variant: u8,
}

/// Object `a` of `ids` comes before object `b` when listed by id, equal ids keeping their order.
pub open spec fn id_before(ids: Seq<AssetSpec>, a: int, b: int) -> bool {
    ids[a].id.0 < ids[b].id.0 || (ids[a].id.0 == ids[b].id.0 && a < b)
}

/// `order` lists every position of `specs` once, by increasing id, equal ids in their order.
pub open spec fn sorts_by_id(specs: Seq<AssetSpec>, order: Seq<usize>) -> bool {
    &&& order.len() == specs.len()
    &&& forall|i: int| 0 <= i < order.len() ==> #[trigger] order[i] < specs.len()
    &&& forall|i: int, j: int|
        0 <= i < j < order.len() ==> id_before(specs, #[trigger] order[i] as int, #[trigger] order[j] as int)
}

/// The positions of `specs` in the order the chunk lists its objects: by id, equal ids in the
/// order they were made.
pub fn id_order(specs: &Vec<AssetSpec>) -> (r: Vec<usize>)
    ensures
        sorts_by_id(specs@, r@),
{
    let mut order: Vec<usize> = Vec::new();
    let mut k: usize = 0;
    while k < specs.len()
        invariant
            k <= specs@.len(),
            order@.len() == k,
            forall|i: int| 0 <= i < order@.len() ==> #[trigger] order@[i] < k,
            forall|i: int, j: int|
                0 <= i < j < order@.len() ==> id_before(specs@, #[trigger] order@[i] as int, #[trigger] order@[j] as int),
        decreases specs@.len() - k,
    {
        let id = specs[k].id.0;
        let mut p: usize = 0;
        while p < order.len() && specs[order[p]].id.0 <= id
            invariant
                p <= order@.len(),
                order@.len() == k,
                k < specs@.len(),
                id == specs@[k as int].id.0,
                forall|i: int| 0 <= i < order@.len() ==> #[trigger] order@[i] < k,
                forall|i: int| 0 <= i < p ==> specs@[(#[trigger] order@[i]) as int].id.0 <= id,
            decreases order@.len() - p,
        {
            p = p + 1;
        }
        let ghost before = order@;
        proof {
            assert forall|i: int| p <= i < before.len() implies specs@[(#[trigger] before[i]) as int].id.0 > id by {
                if i > p {
                    assert(id_before(specs@, before[p as int] as int, before[i] as int));
                }
            }
        }
        order.insert(p, k);
        proof {
            let after = order@;
            assert(after == before.insert(p as int, k));
            assert forall|i: int, j: int|
                0 <= i < j < after.len() implies id_before(specs@, #[trigger] after[i] as int, #[trigger] after[j] as int) by {
                if j < p {
                    assert(after[i] == before[i] && after[j] == before[j]);
                } else if j == p {
                    assert(after[i] == before[i]);
                } else if i == p {
                    assert(after[j] == before[j - 1]);
                } else if i < p {
                    assert(after[i] == before[i] && after[j] == before[j - 1]);
                } else {
                    assert(after[i] == before[i - 1] && after[j] == before[j - 1]);
                }
            }
            assert forall|i: int| 0 <= i < after.len() implies #[trigger] after[i] < k + 1 by {
                if i < p {
                    assert(after[i] == before[i]);
                } else if i > p {
                    assert(after[i] == before[i - 1]);
                }
            }
        }
        k = k + 1;
    }
    order
}

/// The id of the object made with `salt` in chunk `key`.
pub open spec fn object_id_spec(salt: u64, key: ChunkKey) -> WorldObjectId {
    WorldObjectId(mix_seed_spec(salt ^ 0x9E37_79B9_7F4A_7C15u64, key))
}

pub open spec fn abs_spec(v: int) -> int {
    if v < 0 {
        -v
    } else {
        v
    }
}

/// The kind of the object at `index` (from the third on) in a chunk that is not an ocean.
pub open spec fn kind_at(index: int, key: ChunkKey) -> ProcAssetKind {
    let offset = (abs_spec(key.x as int) + abs_spec(key.y as int)) % 3;
    let k = (index + offset) % 4;
    if k == 0 {
        ProcAssetKind::Grass
    } else if k == 1 {
        ProcAssetKind::Tree
    } else if k == 2 {
        ProcAssetKind::DirtPatch
    } else {
        ProcAssetKind::Bush
    }
}

/// The object at `index` in a chunk that is not an ocean: a rock, a bush, then kinds that cycle.
pub open spec fn land_asset_at(index: int, key: ChunkKey) -> AssetSpec {
    if index == 0 {
        AssetSpec { id: object_id_spec(0, key), kind: ProcAssetKind::Rock, intensity: 0, variant: 2 }
    } else if index == 1 {
        AssetSpec { id: object_id_spec(1, key), kind: ProcAssetKind::Bush, intensity: 1, variant: 3 }
    } else {
        AssetSpec {
            id: object_id_spec(index as u64, key),
            kind: kind_at(index, key),
            intensity: index as u8,
            variant: (index % 4) as u8,
        }
    }
}

/// The objects of chunk `key`, in the order they are placed: an ocean has at most one rock, any
/// other chunk `max(max_assets, 2)` objects.
pub open spec fn asset_specs_spec(world_seed: u64, max_assets: u8, key: ChunkKey, theme: ChunkTheme) -> Seq<
    AssetSpec,
> {
    if theme == ChunkTheme::Ocean {
        if mix_seed_spec(world_seed ^ 0xA5A5_A5A5_A5A5_A5A5u64, key) % 2 == 0 {
            seq![AssetSpec { id: object_id_spec(0, key), kind: ProcAssetKind::Rock, intensity: 0, variant: 1 }]
        } else {
            Seq::empty()
        }
    } else {
        let target: int = if max_assets < 2 {
            2
        } else {
            max_assets as int
        };
        Seq::new(target as nat, |i: int| land_asset_at(i, key))
    }
}

/// The objects of chunk `key` of the given biome, in the order they are placed.
pub fn build_asset_specs(world_seed: u64, max_proc_assets_per_chunk: u8, key: ChunkKey, theme: ChunkTheme) -> (r: Vec<
    AssetSpec,
>)
    requires
        theme != ChunkTheme::Ocean && max_proc_assets_per_chunk > 2 ==> key.x != i32::MIN && key.y != i32::MIN
            && abs_spec(key.x as int) + abs_spec(key.y as int) <= i32::MAX,
    ensures
        r@ == asset_specs_spec(world_seed, max_proc_assets_per_chunk, key, theme),
{
    let mut assets: Vec<AssetSpec> = Vec::new();
    if theme == ChunkTheme::Ocean {
        if mix_seed(world_seed ^ 0xA5A5_A5A5_A5A5_A5A5, key) % 2 == 0 {
            assets.push(
                AssetSpec {
                    id: WorldObjectId(mix_seed(0u64 ^ 0x9E37_79B9_7F4A_7C15, key)),
                    kind: ProcAssetKind::Rock,
                    intensity: 0,
                    variant: 1,
                },
            );
            assert(assets@ =~= asset_specs_spec(world_seed, max_proc_assets_per_chunk, key, theme));
        }
        return assets;
    }
    assets.push(
        AssetSpec {
            id: WorldObjectId(mix_seed(0u64 ^ 0x9E37_79B9_7F4A_7C15, key)),
            kind: ProcAssetKind::Rock,
            intensity: 0,
            variant: 2,
        },
    );
    assets.push(
        AssetSpec {
            id: WorldObjectId(mix_seed(1u64 ^ 0x9E37_79B9_7F4A_7C15, key)),
            kind: ProcAssetKind::Bush,
            intensity: 1,
            variant: 3,
        },
    );
    let target: usize = if max_proc_assets_per_chunk < 2 {
        2
    } else {
        max_proc_assets_per_chunk as usize
    };
    if target > 2 {
        let ax: i32 = if key.x < 0 {
            -key.x
        } else {
            key.x
        };
        let ay: i32 = if key.y < 0 {
            -key.y
        } else {
            key.y
        };
        let kind_offset = ((ax + ay) % 3) as usize;
        let mut index: usize = 2;
        while index < target
            invariant
                2 <= index <= target,
                target <= 255,
                target == (if max_proc_assets_per_chunk < 2 {
                    2
                } else {
                    max_proc_assets_per_chunk as int
                }),
                kind_offset == (abs_spec(key.x as int) + abs_spec(key.y as int)) % 3,
                assets@.len() == index,
                forall|i: int| 0 <= i < index ==> #[trigger] assets@[i] == land_asset_at(i, key),
            decreases target - index,
        {
            let k = (index + kind_offset) % 4;
            let kind = if k == 0 {
                ProcAssetKind::Grass
            } else if k == 1 {
                ProcAssetKind::Tree
            } else if k == 2 {
                ProcAssetKind::DirtPatch
            } else {
                ProcAssetKind::Bush
            };
            assets.push(
                AssetSpec {
                    id: WorldObjectId(mix_seed(index as u64 ^ 0x9E37_79B9_7F4A_7C15, key)),
                    kind,
                    intensity: index as u8,
                    variant: (index % 4) as u8,
                },
            );
            index = index + 1;
        }
    }
    assert(assets@ =~= asset_specs_spec(world_seed, max_proc_assets_per_chunk, key, theme));
    assets
}

/// Byte `j` of `v` in little-endian order.
pub open spec fn le_byte(v: u64, j: int) -> u8 {
    ((v >> ((8 * j) as u64)) & 0xff) as u8
}

/// Byte `i` of the 32-byte seed of chunk `key`'s generator: four little-endian words, word `w`
/// being the chunk's mixed seed xor-ed with `w` and mixed again.
pub open spec fn rng_seed_byte(world_seed: u64, key: ChunkKey, i: int) -> u8 {
    le_byte(mix_seed_spec(mix_seed_spec(world_seed, key) ^ ((i / 8) as u64), key), i % 8)
}

/// The 32 bytes of the seed of chunk `key`'s generator.
pub open spec fn chunk_rng_seed_spec(world_seed: u64, key: ChunkKey) -> Seq<u8> {
    Seq::new(32, |i: int| rng_seed_byte(world_seed, key, i))
}

/// The seed of the generator that places chunk `key`'s objects.
pub fn chunk_rng_seed(world_seed: u64, key: ChunkKey) -> (r: [u8; 32])
    ensures
        forall|i: int| 0 <= i < 32 ==> #[trigger] r@[i] == rng_seed_byte(world_seed, key, i),
        r@ == chunk_rng_seed_spec(world_seed, key),
{
    let base = mix_seed(world_seed, key);
    let mut full_seed: [u8; 32] = [0u8; 32];
    let mut index: usize = 0;
    while index < 4
        invariant
            index <= 4,
            base == mix_seed_spec(world_seed, key),
            forall|i: int| 0 <= i < 8 * index ==> #[trigger] full_seed@[i] == rng_seed_byte(world_seed, key, i),
        decreases 4 - index,
    {
        let mixed = mix_seed(base ^ index as u64, key);
        let mut j: usize = 0;
        while j < 8
            invariant
                index < 4,
                j <= 8,
                base == mix_seed_spec(world_seed, key),
                mixed == mix_seed_spec(base ^ (index as u64), key),
                forall|i: int| 0 <= i < 8 * index + j ==> #[trigger] full_seed@[i] == rng_seed_byte(world_seed, key, i),
            decreases 8 - j,
        {
            let b = ((mixed >> (8 * j as u64)) & 0xff) as u8;
            let ghost before = full_seed@;
            full_seed[8 * index + j] = b;
            proof {
                let p = 8 * index + j;
                assert(p / 8 == index && p % 8 == j);
                assert forall|i: int| 0 <= i < 8 * index + j + 1 implies #[trigger] full_seed@[i] == rng_seed_byte(
                    world_seed,
                    key,
                    i,
                ) by {
                    if i < p {
                        assert(full_seed@[i] == before[i]);
                    }
                }
            }
            j = j + 1;
        }
        index = index + 1;
    }
    full_seed
}

/// The `rand_chacha` generator with 8 rounds.
#[verifier::external_type_specification]
#[verifier::external_body]
pub struct ExChaCha8Rng(rand_chacha::ChaCha8Rng);

/// The `ChaCha8Rng` that `SeedableRng::from_seed` makes from a 32-byte seed.
pub uninterp spec fn chacha8_from_seed(seed: Seq<u8>) -> rand_chacha::ChaCha8Rng;

/// Calls `SeedableRng::from_seed` for `ChaCha8Rng`. The generator it gives is a function of the
/// seed alone (the crate documents its generators as deterministic and portable), named
/// `chacha8_from_seed`; nothing more about its state is stated.
#[verifier::external_body]
fn chacha_from_seed(seed: [u8; 32]) -> (r: rand_chacha::ChaCha8Rng)
    ensures
        r == chacha8_from_seed(seed@),
{
    rand_core::SeedableRng::from_seed(seed)
}

/// The generator that places chunk `key`'s objects, seeded with `chunk_rng_seed`.
pub fn seeded_rng(world_seed: u64, key: ChunkKey) -> (r: rand_chacha::ChaCha8Rng)
    ensures
        r == chacha8_from_seed(chunk_rng_seed_spec(world_seed, key)),
{
    let seed = chunk_rng_seed(world_seed, key);
    chacha_from_seed(seed)
}

} // verus!
