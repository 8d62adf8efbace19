use vstd::prelude::*;
use crate::cache::{
    cache_capacity, cache_contains, cache_entries, cache_pop, cache_push, cache_wf, has_key, index_of_key, keys_distinct,
    lemma_index_of_key, lemma_push_effect, lemma_pop_effect, lemma_push_keys, lemma_remove_keys, new_chunk_cache, CacheKey, ChunkCache,
};
use crate::cell::WorldCell;
use crate::chunk::{ChunkKey, ChunkTheme, ChunkView, CHUNK_CELL_COUNT, CHUNK_COORD_MAX, CHUNK_COORD_MIN, CHUNK_SIZE};
use crate::geom::IVec2;
use crate::grid::{DEFAULT_ACTIVE_RADIUS_X, DEFAULT_ACTIVE_RADIUS_Y};
use crate::grid::ActiveWorldGrid;

verus! {

/// How many chunks beyond the active window the preload window reaches.
pub const PRELOAD_EXT_RADIUS: u32 = 3;

/// A batch fetch starts when the active window comes within this many chunks of the edge of
/// the preloaded area.
pub const PRELOAD_TRIGGER: u32 = 2;

/// How many chunks the cache of demoted chunks holds.
pub const CACHE_CHUNK_SIZE: usize = 1176;

/// The cells of one chunk with what the streaming logic keeps about it.
pub struct ChunkData {
    pub cells: Vec<WorldCell>,
    /// Elapsed time, in microseconds, at which the chunk was last simulated.
    pub last_simulated: u64,
    pub theme: ChunkTheme,
}

/// A chunk that left memory: it is to be written out.
pub struct ChunkUnloadEvent {
    pub key: ChunkKey,
    pub data: ChunkData,
}

/// A chunk the grid needs: it is to be read from disk or generated.
pub struct ChunkLoadRequest {
    pub key: ChunkKey,
}

/// A chunk that was read or generated in answer to a request.
pub struct ChunkLoadedEvent {
    pub key: ChunkKey,
    pub data: ChunkData,
}

/// A new size for the active simulation window.
pub struct ResizeSimulationEvent {
    pub new_active_radius_x: u32,
    pub new_active_radius_y: u32,
}

/// What one step of chunk management hands to the outside: chunks to write out, chunks to fetch.
pub struct ChunkTraffic {
    pub unloads: Vec<ChunkUnloadEvent>,
    pub requests: Vec<ChunkLoadRequest>,
}

/// The chunks the engine holds in memory.
pub struct WorldStore {
    /// Chunks of the active window, each also copied into the grid.
    pub active_chunks: Vec<(ChunkKey, ChunkData)>,
    /// Chunks that left the active window, most recently demoted last.
    pub cached_chunks: ChunkCache,
    /// Chunks asked for and not yet arrived.
    pub pending_requests: Vec<ChunkKey>,
}

impl WorldStore {
    pub open spec fn is_active(&self, k: ChunkKey) -> bool {
        has_key(self.active_chunks@, k)
    }

    pub open spec fn is_cached(&self, k: ChunkKey) -> bool {
        has_key(cache_entries(self.cached_chunks), k.cache_key_spec())
    }

    pub open spec fn is_pending(&self, k: ChunkKey) -> bool {
        self.pending_requests@.contains(k)
    }

    /// The store has a copy of chunk `k`.
    pub open spec fn holds(&self, k: ChunkKey) -> bool {
        self.is_active(k) || self.is_cached(k)
    }

    pub open spec fn wf(&self) -> bool {
        &&& keys_distinct(self.active_chunks@)
        &&& cache_wf(self.cached_chunks)
        &&& self.pending_requests@.no_duplicates()
        &&& forall|i: int|
            0 <= i < self.active_chunks@.len() ==> (#[trigger] self.active_chunks@[i]).1.cells@.len()
                == CHUNK_CELL_COUNT && self.active_chunks@[i].0.in_range()
        &&& forall|i: int|
            0 <= i < cache_entries(self.cached_chunks).len() ==> (#[trigger] cache_entries(
                self.cached_chunks,
            )[i]).1.cells@.len() == CHUNK_CELL_COUNT && ChunkKey::from_cache_key_spec(
                cache_entries(self.cached_chunks)[i].0,
            ).in_range()
        &&& forall|k: ChunkKey| #[trigger] self.is_pending(k) ==> !self.holds(k)
    }
}

impl Default for WorldStore {
    fn default() -> (r: Self)
        ensures
            r.wf(),
            r.active_chunks@.len() == 0,
            cache_entries(r.cached_chunks).len() == 0,
            cache_capacity(r.cached_chunks) == CACHE_CHUNK_SIZE,
            r.pending_requests@.len() == 0,
    {
        WorldStore {
            active_chunks: Vec::new(),
            cached_chunks: new_chunk_cache(CACHE_CHUNK_SIZE),
            pending_requests: Vec::new(),
        }
    }
}

/// Which chunks are active and which are preloaded around the focus.
pub struct ChunkManager {
    pub active_view: Option<ChunkView>,
    pub preload_view: Option<ChunkView>,
    /// Radius of the simulated area, in chunks (1 gives 3 x 3 chunks).
    pub active_radius_x: u32,
    pub active_radius_y: u32,
    /// How far, in chunks, the preloaded area reaches beyond the active one.
    pub preload_ext_radius: u32,
    /// A new preload starts when the active area comes within this many chunks of its edge.
    pub preload_trigger: u32,
}

impl Default for ChunkManager {
    fn default() -> (r: Self)
        ensures
            r.active_view is None,
            r.preload_view is None,
            r.active_radius_x == DEFAULT_ACTIVE_RADIUS_X,
            r.active_radius_y == DEFAULT_ACTIVE_RADIUS_Y,
            r.preload_ext_radius == PRELOAD_EXT_RADIUS,
            r.preload_trigger == PRELOAD_TRIGGER,
    {
        ChunkManager {
            active_view: None,
            active_radius_x: DEFAULT_ACTIVE_RADIUS_X,
            active_radius_y: DEFAULT_ACTIVE_RADIUS_Y,
            preload_view: None,
            preload_ext_radius: PRELOAD_EXT_RADIUS,
            preload_trigger: PRELOAD_TRIGGER,
        }
    }
}

impl ChunkManager {
    /// The store matches the active window: no active chunk lies outside it, and each of its
    /// chunks is active or asked for.
    pub open spec fn tracks(&self, store: &WorldStore) -> bool {
        match self.active_view {
            None => store.active_chunks@.len() == 0,
            Some(v) => {
                &&& forall|k: ChunkKey| #[trigger] store.is_active(k) ==> v.contains_spec(k)
                &&& forall|k: ChunkKey| #[trigger] v.contains_spec(k) ==> store.is_active(k) || store.is_pending(k)
            },
        }
    }

    /// The windows drawn around `center` stay among chunks whose cells have `i32` positions.
    pub open spec fn reaches_fit(&self, center: ChunkKey) -> bool {
        let rx = self.active_radius_x + self.preload_ext_radius + self.preload_trigger;
        let ry = self.active_radius_y + self.preload_ext_radius + self.preload_trigger;
        &&& CHUNK_COORD_MIN <= center.key.x - rx
        &&& center.key.x + rx <= CHUNK_COORD_MAX
        &&& CHUNK_COORD_MIN <= center.key.y - ry
        &&& center.key.y + ry <= CHUNK_COORD_MAX
    }

    pub open spec fn active_view_at(&self, center: ChunkKey) -> ChunkView {
        ChunkView::from_rect_xy_spec(center, self.active_radius_x as int, self.active_radius_y as int)
    }

    /// The area whose leaving the preload view starts a new preload.
    pub open spec fn danger_view_at(&self, center: ChunkKey) -> ChunkView {
        ChunkView::from_rect_xy_spec(
            center,
            self.active_radius_x + self.preload_trigger,
            self.active_radius_y + self.preload_trigger,
        )
    }

    pub open spec fn preload_view_at(&self, center: ChunkKey) -> ChunkView {
        ChunkView::from_rect_xy_spec(
            center,
            self.active_radius_x + self.preload_ext_radius,
            self.active_radius_y + self.preload_ext_radius,
        )
    }

    /// A preload is due: there is none yet, or the danger area around `center` reaches past it.
    pub open spec fn needs_preload(&self, center: ChunkKey) -> bool {
        match self.preload_view {
            None => true,
            Some(p) => !p.contains_spec(self.danger_view_at(center).min) || !p.contains_spec(
                self.danger_view_at(center).max,
            ),
        }
    }
}

/// Some event of `unloads` carries chunk `k`.
pub open spec fn unloaded(unloads: Seq<ChunkUnloadEvent>, k: ChunkKey) -> bool {
    exists|i: int| 0 <= i < unloads.len() && (#[trigger] unloads[i]).key == k
}

/// The keys of `requests`, in order.
pub open spec fn requested_keys(requests: Seq<ChunkLoadRequest>) -> Seq<ChunkKey> {
    requests.map_values(|r: ChunkLoadRequest| r.key)
}

/// The store keeps `d` as a copy of chunk `k`, among its active chunks or in its cache.
pub open spec fn keeps(store: WorldStore, k: ChunkKey, d: ChunkData) -> bool {
    store.active_chunks@.contains((k, d)) || cache_entries(store.cached_chunks).contains((k.cache_key_spec(), d))
}

/// The data of the active chunk `k` of `store`.
pub open spec fn active_copy(store: WorldStore, k: ChunkKey) -> ChunkData {
    store.active_chunks@[index_of_key(store.active_chunks@, k)].1
}

/// With distinct keys, an active entry for `k` holds the active copy of `k`.
proof fn lemma_active_copy(store: WorldStore, k: ChunkKey, d: ChunkData)
    requires
        keys_distinct(store.active_chunks@),
        store.active_chunks@.contains((k, d)),
    ensures
        active_copy(store, k) == d,
        store.is_active(k),
{
    let j = choose|j: int| 0 <= j < store.active_chunks@.len() && store.active_chunks@[j] == (k, d);
    lemma_index_of_key(store.active_chunks@, j);
}

/// Chunk `k` with data `d` is among `unloads`.
pub open spec fn unloads_copy(unloads: Seq<ChunkUnloadEvent>, k: ChunkKey, d: ChunkData) -> bool {
    exists|i: int| 0 <= i < unloads.len() && (#[trigger] unloads[i]).key == k && unloads[i].data == d
}

/// `d` is the active chunk `a` at `k` copied back from the grid `g`, stamped with `now`.
pub open spec fn copied_back(g: ActiveWorldGrid, k: ChunkKey, now: u64, a: ChunkData, d: ChunkData) -> bool {
    &&& d.cells@ == g.chunk_of(g.cells@, k.key.x * 64, k.key.y * 64)
    &&& d.last_simulated == now
    &&& d.theme == a.theme
}

/// The grid `g` shows chunk `k` holding `d`: the cells of `k` in the grid are those of `d`.
pub open spec fn shows(g: ActiveWorldGrid, k: ChunkKey, d: ChunkData) -> bool {
    g.chunk_of(g.cells@, k.key.x * 64, k.key.y * 64) == d.cells@
}

/// `view` is one layer deep, and the window of `g` holds each of its chunks whole.
pub open spec fn covers_view(g: ActiveWorldGrid, view: ChunkView) -> bool {
    &&& view.min.key.z == view.max.key.z
    &&& forall|k: ChunkKey| #[trigger] view.contains_spec(k) ==> g.covers_chunk_xy(k.key.x * 64, k.key.y * 64)
}

/// A window of `g`'s size, at the lower corner of a view of radii `rx`, `ry`, holds the whole view.
pub open spec fn spans_radii(g: ActiveWorldGrid, rx: int, ry: int) -> bool {
    g.width >= (2 * rx + 1) * 64 && g.height >= (2 * ry + 1) * 64
}

/// Appending an entry under another key leaves the active copy of `k` as it was.
proof fn lemma_active_copy_push(s: WorldStore, t: WorldStore, k: ChunkKey, e: (ChunkKey, ChunkData))
    requires
        keys_distinct(s.active_chunks@),
        keys_distinct(t.active_chunks@),
        t.active_chunks@ == s.active_chunks@.push(e),
        e.0 != k,
        s.is_active(k),
    ensures
        t.is_active(k),
        active_copy(t, k) == active_copy(s, k),
{
    let a = index_of_key(s.active_chunks@, k);
    assert(t.active_chunks@[a] == s.active_chunks@[a]);
    lemma_index_of_key(t.active_chunks@, a);
}

/// Loading chunk `key` leaves the cells of another chunk `k` as they were, both being in the window.
proof fn lemma_load_spares(g: ActiveWorldGrid, cells: Seq<WorldCell>, key: ChunkKey, chunk: Seq<WorldCell>, k: ChunkKey)
    requires
        g.wf(),
        cells.len() == g.size(),
        g.covers_chunk_xy(key.key.x * 64, key.key.y * 64),
        g.covers_chunk_xy(k.key.x * 64, k.key.y * 64),
        k.key.x != key.key.x || k.key.y != key.key.y,
    ensures
        g.chunk_of(g.loaded_cells(cells, key.key.x * 64, key.key.y * 64, chunk), k.key.x * 64, k.key.y * 64)
            == g.chunk_of(cells, k.key.x * 64, k.key.y * 64),
{
    if k.key.x != key.key.x {
        if k.key.x < key.key.x {
            assert(k.key.x * 64 + 64 <= key.key.x * 64);
        } else {
            assert(key.key.x * 64 + 64 <= k.key.x * 64);
        }
    } else {
        if k.key.y < key.key.y {
            assert(k.key.y * 64 + 64 <= key.key.y * 64);
        } else {
            assert(key.key.y * 64 + 64 <= k.key.y * 64);
        }
    }
    g.law_load_spares_other_chunks(cells, key.key.x * 64, key.key.y * 64, chunk, k.key.x * 64, k.key.y * 64);
}

/// Two grids with the same geometry read the same chunk out of the same cells.
proof fn lemma_chunk_of_same_geometry(g1: ActiveWorldGrid, g2: ActiveWorldGrid, cells: Seq<WorldCell>, bx: int, by: int)
    requires
        g1.width == g2.width,
        g1.height == g2.height,
        g1.window_origin == g2.window_origin,
        g1.buffer_head == g2.buffer_head,
    ensures
        g1.chunk_of(cells, bx, by) == g2.chunk_of(cells, bx, by),
{
    assert(g1.chunk_of(cells, bx, by) =~= g2.chunk_of(cells, bx, by));
}

/// What a promotion does to the chunks the grid shows: the promoted chunk, when it came from
/// the cache, shows its copy, and every other active chunk of the view keeps its cells and copy.
proof fn lemma_promote_shows(
    s0: WorldStore,
    s1: WorldStore,
    g0: ActiveWorldGrid,
    g1: ActiveWorldGrid,
    key: ChunkKey,
    view: ChunkView,
)
    requires
        s0.wf(),
        s1.wf(),
        g0.wf(),
        covers_view(g0, view),
        view.contains_spec(key),
        !s0.is_active(key),
        forall|k: ChunkKey| #[trigger] s0.is_active(k) ==> view.contains_spec(k),
        g1.width == g0.width,
        g1.height == g0.height,
        g1.window_origin == g0.window_origin,
        g1.buffer_head == g0.buffer_head,
        s0.is_cached(key) ==> ({
            let i = choose|i: int|
                0 <= i < cache_entries(s0.cached_chunks).len() && #[trigger] cache_entries(s0.cached_chunks)[i].0
                    == key.cache_key_spec();
            &&& g1.cells@ == g0.loaded_cells(
                g0.cells@,
                key.key.x * 64,
                key.key.y * 64,
                cache_entries(s0.cached_chunks)[i].1.cells@,
            )
            &&& s1.active_chunks@ == s0.active_chunks@.push((key, cache_entries(s0.cached_chunks)[i].1))
        }),
        !s0.is_cached(key) ==> g1.cells@ == g0.cells@ && s1.active_chunks@ == s0.active_chunks@,
    ensures
        s1.is_active(key) ==> shows(g1, key, active_copy(s1, key)),
        forall|k: ChunkKey| #[trigger] s0.is_active(k) ==> s1.is_active(k) && active_copy(s1, k) == active_copy(s0, k)
            && g1.chunk_of(g1.cells@, k.key.x * 64, k.key.y * 64) == g0.chunk_of(g0.cells@, k.key.x * 64, k.key.y * 64),
{
    assert forall|k: ChunkKey| #[trigger] s0.is_active(k) implies s1.is_active(k) && active_copy(s1, k) == active_copy(s0, k)
        && g1.chunk_of(g1.cells@, k.key.x * 64, k.key.y * 64) == g0.chunk_of(g0.cells@, k.key.x * 64, k.key.y * 64) by {
        lemma_chunk_of_same_geometry(g1, g0, g1.cells@, k.key.x * 64, k.key.y * 64);
        if s0.is_cached(key) {
            let i = choose|i: int|
                0 <= i < cache_entries(s0.cached_chunks).len() && #[trigger] cache_entries(s0.cached_chunks)[i].0
                    == key.cache_key_spec();
            let data = cache_entries(s0.cached_chunks)[i].1;
            assert(k != key);
            assert(k.key.x != key.key.x || k.key.y != key.key.y);
            lemma_load_spares(g0, g0.cells@, key, data.cells@, k);
            lemma_active_copy_push(s0, s1, k, (key, data));
        }
    }
    if s1.is_active(key) {
        assert(s0.is_cached(key)) by {
            if !s0.is_cached(key) {
                assert(s1.active_chunks@ == s0.active_chunks@);
            }
        }
        let i = choose|i: int|
            0 <= i < cache_entries(s0.cached_chunks).len() && #[trigger] cache_entries(s0.cached_chunks)[i].0
                == key.cache_key_spec();
        let data = cache_entries(s0.cached_chunks)[i].1;
        assert(cache_entries(s0.cached_chunks)[i].1.cells@.len() == CHUNK_CELL_COUNT);
        g0.law_chunk_round_trip(g0.cells@, key.key.x * 64, key.key.y * 64, data.cells@);
        lemma_chunk_of_same_geometry(g1, g0, g1.cells@, key.key.x * 64, key.key.y * 64);
        assert(s1.active_chunks@[s0.active_chunks@.len() as int] == (key, data));
        lemma_active_copy(s1, key, data);
    }
}

/// Distinct chunk keys have distinct cache keys.
proof fn lemma_cache_key_injective()
    ensures
        forall|a: ChunkKey, b: ChunkKey| #[trigger] a.cache_key_spec() == #[trigger] b.cache_key_spec() ==> a == b,
        forall|c: CacheKey| #[trigger] ChunkKey::from_cache_key_spec(c).cache_key_spec() == c,
        forall|k: ChunkKey| #[trigger] ChunkKey::from_cache_key_spec(k.cache_key_spec()) == k,
{
    assert forall|k: ChunkKey| #[trigger] ChunkKey::from_cache_key_spec(k.cache_key_spec()) == k by {
        assert(ChunkKey::from_cache_key_spec(k.cache_key_spec()).key == k.key);
    }
    assert forall|a: ChunkKey, b: ChunkKey| #[trigger] a.cache_key_spec() == #[trigger] b.cache_key_spec() implies a == b by {
        assert(a.key == b.key);
    }
}

/// Where `key` sits among the active chunks.
fn find_active(active: &Vec<(ChunkKey, ChunkData)>, key: &ChunkKey) -> (r: Option<usize>)
    ensures
        match r {
            Some(i) => i < active@.len() && active@[i as int].0 == *key,
            None => !has_key(active@, *key),
        },
{
    let mut i: usize = 0;
    while i < active.len()
        invariant
            i <= active@.len(),
            forall|j: int| 0 <= j < i ==> (#[trigger] active@[j]).0 != *key,
        decreases active@.len() - i,
    {
        if active[i].0 == *key {
            return Some(i);
        }
        i = i + 1;
    }
    None
}

/// Adds `key` to the pending requests unless it is there; true when it was added.
fn insert_pending(pending: &mut Vec<ChunkKey>, key: ChunkKey) -> (r: bool)
    requires
        old(pending)@.no_duplicates(),
    ensures
        r == !old(pending)@.contains(key),
        final(pending)@ == if r {
            old(pending)@.push(key)
        } else {
            old(pending)@
        },
        final(pending)@.no_duplicates(),
{
    let mut i: usize = 0;
    while i < pending.len()
        invariant
            i <= pending@.len(),
            pending@ == old(pending)@,
            pending@.no_duplicates(),
            forall|j: int| 0 <= j < i ==> pending@[j] != key,
        decreases pending@.len() - i,
    {
        if pending[i] == key {
            return false;
        }
        i = i + 1;
    }
    pending.push(key);
    proof {
        assert forall|a: int, b: int| 0 <= a < b < pending@.len() implies pending@[a] != pending@[b] by {
            if b == pending@.len() - 1 {
                assert(old(pending)@[a] != key);
            } else {
                assert(old(pending)@[a] != old(pending)@[b]);
            }
        }
    }
    true
}

/// Drops `key` from the pending requests.
fn remove_pending(pending: &mut Vec<ChunkKey>, key: &ChunkKey)
    requires
        old(pending)@.no_duplicates(),
    ensures
        final(pending)@.no_duplicates(),
        forall|k: ChunkKey| final(pending)@.contains(k) <==> old(pending)@.contains(k) && k != *key,
{
    let mut i: usize = 0;
    while i < pending.len()
        invariant
            i <= pending@.len(),
            pending@ == old(pending)@,
            pending@.no_duplicates(),
            forall|j: int| 0 <= j < i ==> pending@[j] != *key,
        decreases pending@.len() - i,
    {
        if pending[i] == *key {
            let ghost before = pending@;
            pending.remove(i);
            proof {
                assert(pending@ == before.remove(i as int));
                assert(before.no_duplicates());
                assert forall|k: ChunkKey| pending@.contains(k) <==> before.contains(k) && k != *key by {
                    if pending@.contains(k) {
                        let j = choose|j: int| 0 <= j < pending@.len() && pending@[j] == k;
                        if j < i {
                            assert(before[j] == k);
                        } else {
                            assert(before[j + 1] == k);
                        }
                    }
                    if before.contains(k) && k != *key {
                        let j = choose|j: int| 0 <= j < before.len() && before[j] == k;
                        if j < i {
                            assert(pending@[j] == k);
                        } else {
                            assert(j != i);
                            assert(pending@[j - 1] == k);
                        }
                    }
                }
                assert forall|a: int, b: int| 0 <= a < b < pending@.len() implies pending@[a] != pending@[b] by {
                    let a2 = if a < i { a } else { a + 1 };
                    let b2 = if b < i { b } else { b + 1 };
                    assert(pending@[a] == before[a2]);
                    assert(pending@[b] == before[b2]);
                }
            }
            return;
        }
        i = i + 1;
    }
    proof {
        assert forall|k: ChunkKey| pending@.contains(k) <==> old(pending)@.contains(k) && k != *key by {
            if pending@.contains(k) {
                let j = choose|j: int| 0 <= j < pending@.len() && pending@[j] == k;
                assert(pending@[j] != *key);
            }
        }
    }
}

/// Moves chunk `key`, if active, out of the active set: its cells are copied back from the grid,
/// it is stamped with `now` and pushed into the cache; a chunk the cache gives up for it is
/// added to `unloads`.
fn demote_chunk(
    store: &mut WorldStore,
    grid: &ActiveWorldGrid,
    key: ChunkKey,
    now: u64,
    unloads: &mut Vec<ChunkUnloadEvent>,
)
    requires
        old(store).wf(),
        grid.wf(),
    ensures
        final(store).wf(),
        final(store).pending_requests@ == old(store).pending_requests@,
        !final(store).is_active(key),
        forall|k: ChunkKey| k != key ==> (final(store).is_active(k) <==> old(store).is_active(k)),
        forall|k: ChunkKey| #[trigger] final(store).is_cached(k) ==> old(store).is_cached(k) || k == key,
        old(store).is_active(key) ==> final(store).is_cached(key),
        !old(store).is_active(key) ==> *final(store) == *old(store) && final(unloads)@ == old(unloads)@,
        forall|k: ChunkKey| #[trigger] old(store).holds(k) ==> final(store).holds(k) || unloaded(final(unloads)@, k),
        final(unloads)@.len() >= old(unloads)@.len(),
        final(unloads)@.subrange(0, old(unloads)@.len() as int) == old(unloads)@,
        forall|i: int| old(unloads)@.len() <= i < final(unloads)@.len() ==> old(store).holds(#[trigger] final(unloads)@[i].key),
        old(store).is_active(key) ==> ({
            let e = cache_entries(final(store).cached_chunks).last();
            &&& e.0 == key.cache_key_spec()
            &&& e.1.cells@ == grid.chunk_of(grid.cells@, key.key.x * 64, key.key.y * 64)
            &&& e.1.last_simulated == now
            &&& copied_back(*grid, key, now, active_copy(*old(store), key), e.1)
        }),
        forall|e: (ChunkKey, ChunkData)| #[trigger] final(store).active_chunks@.contains(e) ==> old(store).active_chunks@.contains(e),
        forall|e: (ChunkKey, ChunkData)| #[trigger] old(store).active_chunks@.contains(e) && e.0 != key ==> final(store).active_chunks@.contains(e),
        forall|k: ChunkKey, d: ChunkData| #[trigger] keeps(*final(store), k, d) ==> keeps(*old(store), k, d) || (k == key
            && old(store).is_active(key) && d == cache_entries(final(store).cached_chunks).last().1),
        forall|i: int| old(unloads)@.len() <= i < final(unloads)@.len() ==> keeps(*old(store), #[trigger] final(unloads)@[i].key, final(unloads)@[i].data),
        forall|k: ChunkKey, d: ChunkData| #[trigger] keeps(*old(store), k, d) && !(k == key && old(store).active_chunks@.contains((k, d)))
            ==> keeps(*final(store), k, d) || unloads_copy(final(unloads)@, k, d),
        forall|k: ChunkKey, d: ChunkData| #[trigger] cache_entries(old(store).cached_chunks).contains((k.cache_key_spec(), d))
            ==> cache_entries(final(store).cached_chunks).contains((k.cache_key_spec(), d)) || unloads_copy(final(unloads)@, k, d),
{
    let found = find_active(&store.active_chunks, &key);
    if found.is_none() {
        return;
    }
    let idx = found.unwrap();
    let ghost before = *store;
    let ghost old_unloads = unloads@;
    let (k, mut data) = store.active_chunks.remove(idx);
    let ghost orig = data;
    proof {
        lemma_remove_keys(before.active_chunks@, idx as int);
        assert(before.active_chunks@[idx as int].0.in_range());
        assert(before.active_chunks@.contains((key, orig)));
        assert forall|e: (ChunkKey, ChunkData)| #[trigger] before.active_chunks@.contains(e) && e.0 != key implies store.active_chunks@.contains(e) by {
            let j = choose|j: int| 0 <= j < before.active_chunks@.len() && before.active_chunks@[j] == e;
            if j < idx {
                assert(store.active_chunks@[j] == e);
            } else {
                assert(j != idx);
                assert(store.active_chunks@[j - 1] == e);
            }
        }
        assert forall|e: (ChunkKey, ChunkData)| #[trigger] store.active_chunks@.contains(e) implies before.active_chunks@.contains(e) by {
            let j = choose|j: int| 0 <= j < store.active_chunks@.len() && store.active_chunks@[j] == e;
            if j < idx {
                assert(before.active_chunks@[j] == e);
            } else {
                assert(before.active_chunks@[j + 1] == e);
            }
        }
        assert forall|d: ChunkData| #[trigger] before.active_chunks@.contains((key, d)) implies d == orig by {
            let j = choose|j: int| 0 <= j < before.active_chunks@.len() && before.active_chunks@[j] == (key, d);
            assert(before.active_chunks@[j].0 == before.active_chunks@[idx as int].0);
        }
    }
    if data.cells.len() != CHUNK_CELL_COUNT {
        data.cells.resize(CHUNK_CELL_COUNT, WorldCell::default());
    }
    grid.extract_chunk_into(key, data.cells.as_mut_slice());
    data.last_simulated = now;
    let ghost mid = cache_entries(store.cached_chunks);
    let ghost stored = data;
    proof {
        assert(stored.theme == orig.theme);
        lemma_active_copy(before, key, orig);
        assert(copied_back(*grid, key, now, orig, stored));
    }
    let evicted = cache_push(&mut store.cached_chunks, key.cache_key(), data);
    proof {
        lemma_push_effect(
            mid,
            cache_entries(store.cached_chunks),
            cache_capacity(store.cached_chunks),
            key.cache_key_spec(),
            stored,
            evicted,
        );
        lemma_cache_key_injective();
        assert forall|k: ChunkKey| #[trigger] store.is_pending(k) implies !store.holds(k) by {
            assert(before.is_pending(k));
            assert(!before.holds(k));
            if k == key {
                assert(before.is_active(key));
            }
        }
        assert forall|k: ChunkKey| #[trigger] before.holds(k) implies store.holds(k) || (evicted is Some
            && evicted.unwrap().0 == k.cache_key_spec()) by {
            if k != key && before.is_active(k) {
                assert(store.is_active(k));
            }
        }
        assert(cache_entries(store.cached_chunks).last() == (key.cache_key_spec(), stored));
        assert forall|k: ChunkKey, d: ChunkData| #[trigger] keeps(*store, k, d) implies keeps(before, k, d) || (k == key
            && d == stored) by {
            if cache_entries(store.cached_chunks).contains((k.cache_key_spec(), d)) {
                let i = choose|i: int| 0 <= i < cache_entries(store.cached_chunks).len() && cache_entries(store.cached_chunks)[i]
                    == (k.cache_key_spec(), d);
                if cache_entries(store.cached_chunks)[i] == (key.cache_key_spec(), stored) {
                    assert(k == key);
                }
            }
        }
        assert forall|k: ChunkKey, d: ChunkData| #[trigger] keeps(before, k, d) && !(k == key && before.active_chunks@.contains((k, d)))
            implies keeps(*store, k, d) || evicted == Some((k.cache_key_spec(), d)) by {
            if before.active_chunks@.contains((k, d)) {
                assert(k != key);
                assert(store.active_chunks@.contains((k, d)));
            } else {
                assert(mid.contains((k.cache_key_spec(), d)));
            }
        }
        assert forall|k: ChunkKey, d: ChunkData| #[trigger] cache_entries(before.cached_chunks).contains((k.cache_key_spec(), d))
            implies cache_entries(store.cached_chunks).contains((k.cache_key_spec(), d)) || evicted == Some((k.cache_key_spec(), d)) by {
            assert(mid.contains((k.cache_key_spec(), d)));
        }
        assert(evicted is Some ==> before.is_cached(ChunkKey::from_cache_key_spec(evicted.unwrap().0)) && keeps(
            before,
            ChunkKey::from_cache_key_spec(evicted.unwrap().0),
            evicted.unwrap().1,
        )) by {
            if evicted is Some {
                let e = evicted.unwrap();
                assert(mid.contains(e));
                assert(ChunkKey::from_cache_key_spec(e.0).cache_key_spec() == e.0);
                let j = choose|j: int| 0 <= j < mid.len() && mid[j] == e;
                assert(mid[j].0 == e.0);
            }
        }
    }
    match evicted {
        None => {},
        Some((ek, ed)) => {
            let ghost prior = unloads@;
            unloads.push(ChunkUnloadEvent { key: ChunkKey::from_cache_key(ek), data: ed });
            proof {
                assert(unloads@[prior.len() as int].key == ChunkKey::from_cache_key_spec(ek));
                assert(unloads@[prior.len() as int].data == ed);
                assert forall|k: ChunkKey, d: ChunkData| (ek, ed) == (k.cache_key_spec(), d) implies #[trigger] unloads_copy(unloads@, k, d) by {
                    assert(ChunkKey::from_cache_key_spec(ek) == k);
                    assert(unloads@[prior.len() as int].key == k);
                }
                assert forall|k: ChunkKey| #[trigger] before.holds(k) implies store.holds(k) || unloaded(unloads@, k) by {
                    if !store.holds(k) {
                        assert(ek == k.cache_key_spec());
                        assert(ChunkKey::from_cache_key_spec(ek) == k);
                    }
                }
            }
        },
    }
}

/// Brings chunk `key` into the active set: out of the cache when it is there, copying its cells
/// into the grid; otherwise, unless it is active or already asked for, it is asked for.
fn promote_chunk(
    store: &mut WorldStore,
    grid: &mut ActiveWorldGrid,
    key: ChunkKey,
    requests: &mut Vec<ChunkLoadRequest>,
)
    requires
        old(store).wf(),
        old(grid).wf(),
        key.in_range(),
        !old(store).is_active(key),
    ensures
        final(store).wf(),
        final(grid).wf(),
        final(grid).width == old(grid).width,
        final(grid).height == old(grid).height,
        final(grid).window_origin == old(grid).window_origin,
        final(store).is_active(key) || final(store).is_pending(key),
        forall|k: ChunkKey| #[trigger] final(store).is_active(k) ==> old(store).is_active(k) || k == key,
        forall|k: ChunkKey| k != key ==> (final(store).is_active(k) <==> old(store).is_active(k)),
        forall|k: ChunkKey| k != key ==> (final(store).is_cached(k) <==> old(store).is_cached(k)),
        forall|k: ChunkKey| #[trigger] old(store).holds(k) ==> final(store).holds(k),
        forall|k: ChunkKey| #[trigger] final(store).holds(k) ==> old(store).holds(k),
        old(store).is_cached(key) ==> final(store).is_active(key),
        ({
            ||| final(store).pending_requests@ == old(store).pending_requests@ && final(requests)@
                == old(requests)@
            ||| final(store).pending_requests@ == old(store).pending_requests@.push(key) && final(requests)@
                == old(requests)@.push(ChunkLoadRequest { key })
        }),
        final(requests)@ != old(requests)@ ==> !old(store).holds(key) && !old(store).is_pending(key),
        forall|k: ChunkKey, d: ChunkData| #[trigger] keeps(*final(store), k, d) <==> keeps(*old(store), k, d),
        final(grid).buffer_head == old(grid).buffer_head,
        old(store).is_cached(key) ==> ({
            let i = choose|i: int|
                0 <= i < cache_entries(old(store).cached_chunks).len() && #[trigger] cache_entries(
                    old(store).cached_chunks,
                )[i].0 == key.cache_key_spec();
            &&& final(grid).cells@ == old(grid).loaded_cells(
                old(grid).cells@,
                key.key.x * 64,
                key.key.y * 64,
                cache_entries(old(store).cached_chunks)[i].1.cells@,
            )
            &&& final(store).active_chunks@ == old(store).active_chunks@.push(
                (key, cache_entries(old(store).cached_chunks)[i].1),
            )
        }),
        !old(store).is_cached(key) ==> final(grid).cells@ == old(grid).cells@ && final(store).active_chunks@
            == old(store).active_chunks@,
{
    let ghost before = *store;
    let popped = cache_pop(&mut store.cached_chunks, &key.cache_key());
    proof {
        lemma_pop_effect(cache_entries(before.cached_chunks), cache_entries(store.cached_chunks), key.cache_key_spec(), popped);
        lemma_cache_key_injective();
    }
    match popped {
        Some(data) => {
            proof {
                let i = choose|i: int|
                    0 <= i < cache_entries(before.cached_chunks).len() && #[trigger] cache_entries(
                        before.cached_chunks,
                    )[i].0 == key.cache_key_spec();
                assert(cache_entries(before.cached_chunks)[i].1 == data);
                assert(data.cells@.len() == CHUNK_CELL_COUNT);
            }
            grid.load_chunk(key, data.cells.as_slice());
            let ghost mid = store.active_chunks@;
            store.active_chunks.push((key, data));
            proof {
                assert forall|k: ChunkKey, d: ChunkData| #[trigger] keeps(*store, k, d) <==> keeps(before, k, d) by {
                    if store.active_chunks@.contains((k, d)) && !mid.contains((k, d)) {
                        let j = choose|j: int| 0 <= j < store.active_chunks@.len() && store.active_chunks@[j] == (k, d);
                        if j < mid.len() {
                            assert(mid[j] == (k, d));
                        } else {
                            assert((k, d) == (key, data));
                            assert(cache_entries(before.cached_chunks).contains((key.cache_key_spec(), data)));
                        }
                    }
                    if mid.contains((k, d)) {
                        let j = choose|j: int| 0 <= j < mid.len() && mid[j] == (k, d);
                        assert(store.active_chunks@[j] == (k, d));
                    }
                    if cache_entries(before.cached_chunks).contains((k.cache_key_spec(), d)) && !cache_entries(
                        store.cached_chunks,
                    ).contains((k.cache_key_spec(), d)) {
                        assert(k == key);
                        assert(store.active_chunks@[mid.len() as int] == (key, data));
                    }
                }
                lemma_push_keys(mid, (key, data));
                assert(has_key(store.active_chunks@, key));
                assert forall|k: ChunkKey| #[trigger] store.is_pending(k) implies !store.holds(k) by {
                    assert(before.is_pending(k));
                    assert(k != key);
                }
                assert forall|i: int| 0 <= i < store.active_chunks@.len() implies (#[trigger] store.active_chunks@[i]).1.cells@.len()
                    == CHUNK_CELL_COUNT && store.active_chunks@[i].0.in_range() by {
                    if i < mid.len() {
                        assert(store.active_chunks@[i] == before.active_chunks@[i]);
                    }
                }
            }
        },
        None => {
            let found = find_active(&store.active_chunks, &key);
            if found.is_none() {
                if insert_pending(&mut store.pending_requests, key) {
                    requests.push(ChunkLoadRequest { key });
                    assert(store.pending_requests@[store.pending_requests@.len() - 1] == key);
                }
            }
            proof {
                assert(!before.is_cached(key));
                assert(store.is_pending(key));
                assert forall|k: ChunkKey| #[trigger] store.is_pending(k) implies !store.holds(k) by {
                    if k != key {
                        assert(before.is_pending(k));
                    }
                }
            }
        },
    }
}
/// Chunk `k` leaves the active set in an eviction that walks `keys` towards `view`: it is
/// active in `store`, listed, and outside `view`.
pub open spec fn leaving(store: WorldStore, keys: Seq<ChunkKey>, view: ChunkView, k: ChunkKey) -> bool {
    &&& store.is_active(k)
    &&& keys.contains(k)
    &&& !view.contains_spec(k)
}

/// `d` is a copy that an eviction of the chunks of `store` leaving towards `view` from the
/// grid `g` at time `now` makes or keeps: a copy `store` kept, or a leaving chunk copied back.
pub open spec fn evicted_copy(
    store: WorldStore,
    g: ActiveWorldGrid,
    keys: Seq<ChunkKey>,
    view: ChunkView,
    now: u64,
    k: ChunkKey,
    d: ChunkData,
) -> bool {
    keeps(store, k, d) || (leaving(store, keys, view, k) && copied_back(g, k, now, active_copy(store, k), d))
}

/// The active chunks whose keys fall outside `new_view` leave for the cache, in the order
/// `keys` lists them. Every copy kept or written out afterwards was kept before or is a leaving
/// chunk copied back from the grid; every copy kept before is still kept or written out, but
/// for the active copies of leaving chunks, which are kept or written out as copied back.
fn evict_outside(
    store: &mut WorldStore,
    grid: &ActiveWorldGrid,
    keys: &Vec<ChunkKey>,
    new_view: ChunkView,
    now: u64,
    unloads: &mut Vec<ChunkUnloadEvent>,
)
    requires
        old(store).wf(),
        grid.wf(),
        old(unloads)@.len() == 0,
    ensures
        final(store).wf(),
        final(store).pending_requests@ == old(store).pending_requests@,
        forall|k: ChunkKey| #[trigger] final(store).is_active(k) ==> old(store).is_active(k),
        forall|k: ChunkKey| #[trigger] old(store).is_active(k) && (new_view.contains_spec(k) || !keys@.contains(k))
            ==> final(store).is_active(k),
        forall|k: ChunkKey| #[trigger] final(store).is_active(k) && keys@.contains(k) ==> new_view.contains_spec(k),
        forall|k: ChunkKey| #[trigger] old(store).holds(k) ==> final(store).holds(k) || unloaded(final(unloads)@, k),
        forall|i: int| 0 <= i < final(unloads)@.len() ==> old(store).holds(#[trigger] final(unloads)@[i].key),
        forall|e: (ChunkKey, ChunkData)| #[trigger] final(store).active_chunks@.contains(e) ==> old(store).active_chunks@.contains(e),
        forall|k: ChunkKey, d: ChunkData| #[trigger] keeps(*final(store), k, d) ==> evicted_copy(*old(store), *grid, keys@, new_view, now, k, d),
        forall|i: int| 0 <= i < final(unloads)@.len() ==> evicted_copy(
            *old(store),
            *grid,
            keys@,
            new_view,
            now,
            #[trigger] final(unloads)@[i].key,
            final(unloads)@[i].data,
        ),
        forall|k: ChunkKey, d: ChunkData|
            #[trigger] keeps(*old(store), k, d) && !(leaving(*old(store), keys@, new_view, k) && old(store).active_chunks@.contains((k, d)))
                ==> keeps(*final(store), k, d) || unloads_copy(final(unloads)@, k, d),
        forall|k: ChunkKey| #[trigger] leaving(*old(store), keys@, new_view, k) ==> exists|d: ChunkData| #[trigger] copied_back(
            *grid,
            k,
            now,
            active_copy(*old(store), k),
            d,
        ) && (keeps(*final(store), k, d) || unloads_copy(final(unloads)@, k, d)),
        forall|k: ChunkKey, d: ChunkData| #[trigger] cache_entries(old(store).cached_chunks).contains((k.cache_key_spec(), d))
            ==> cache_entries(final(store).cached_chunks).contains((k.cache_key_spec(), d)) || unloads_copy(final(unloads)@, k, d),
{
    let mut i: usize = 0;
    while i < keys.len()
        invariant
            i <= keys@.len(),
            old(store).wf(),
            store.wf(),
            grid.wf(),
            store.pending_requests@ == old(store).pending_requests@,
            forall|k: ChunkKey| #[trigger] store.is_active(k) ==> old(store).is_active(k),
            forall|k: ChunkKey| #[trigger] old(store).is_active(k) && (new_view.contains_spec(k) || !keys@.subrange(0, i as int).contains(k))
                ==> store.is_active(k),
            forall|k: ChunkKey| #[trigger] old(store).holds(k) ==> store.holds(k) || unloaded(unloads@, k),
            forall|j: int| 0 <= j < unloads@.len() ==> old(store).holds(#[trigger] unloads@[j].key),
            forall|k: ChunkKey| #[trigger] store.holds(k) ==> old(store).holds(k),
            forall|k: ChunkKey| #[trigger] store.is_active(k) && keys@.subrange(0, i as int).contains(k) ==> new_view.contains_spec(k),
            forall|e: (ChunkKey, ChunkData)| #[trigger] store.active_chunks@.contains(e) ==> old(store).active_chunks@.contains(e),
            forall|k: ChunkKey, d: ChunkData|
                old(store).active_chunks@.contains((k, d)) && !leaving(*old(store), keys@.subrange(0, i as int), new_view, k)
                    ==> #[trigger] store.active_chunks@.contains((k, d)),
            forall|k: ChunkKey, d: ChunkData| #[trigger] keeps(*store, k, d) ==> evicted_copy(
                *old(store),
                *grid,
                keys@.subrange(0, i as int),
                new_view,
                now,
                k,
                d,
            ),
            forall|j: int| 0 <= j < unloads@.len() ==> evicted_copy(
                *old(store),
                *grid,
                keys@.subrange(0, i as int),
                new_view,
                now,
                #[trigger] unloads@[j].key,
                unloads@[j].data,
            ),
            forall|k: ChunkKey, d: ChunkData|
                #[trigger] keeps(*old(store), k, d) && !(leaving(*old(store), keys@.subrange(0, i as int), new_view, k)
                    && old(store).active_chunks@.contains((k, d))) ==> keeps(*store, k, d) || unloads_copy(unloads@, k, d),
            forall|k: ChunkKey| #[trigger] leaving(*old(store), keys@.subrange(0, i as int), new_view, k) ==> exists|d: ChunkData| #[trigger] copied_back(
                *grid,
                k,
                now,
                active_copy(*old(store), k),
                d,
            ) && (keeps(*store, k, d) || unloads_copy(unloads@, k, d)),
            forall|k: ChunkKey, d: ChunkData| #[trigger] cache_entries(old(store).cached_chunks).contains((k.cache_key_spec(), d))
                ==> cache_entries(store.cached_chunks).contains((k.cache_key_spec(), d)) || unloads_copy(unloads@, k, d),
        decreases keys@.len() - i,
    {
        let key = keys[i];
        let ghost before = *store;
        let ghost prior = unloads@;
        let ghost sub = keys@.subrange(0, i as int);
        let ghost sub1 = keys@.subrange(0, i + 1);
        proof {
            assert(sub1[i as int] == key);
            assert forall|k: ChunkKey| sub.contains(k) implies sub1.contains(k) by {
                let a = choose|a: int| 0 <= a < sub.len() && sub[a] == k;
                assert(sub1[a] == k);
            }
            assert forall|k: ChunkKey| sub1.contains(k) && k != key implies sub.contains(k) by {
                let a = choose|a: int| 0 <= a < sub1.len() && sub1[a] == k;
                assert(a != i);
                assert(sub[a] == k);
            }
            assert(sub1.contains(key));
        }
        if !new_view.contains(&key) {
            demote_chunk(store, grid, key, now, unloads);
            proof {
                assert forall|k: ChunkKey| #[trigger] old(store).holds(k) implies store.holds(k) || unloaded(unloads@, k) by {
                    if !before.holds(k) {
                        let j = choose|j: int| 0 <= j < prior.len() && (#[trigger] prior[j]).key == k;
                        assert(unloads@[j] == prior[j]);
                    } else if !store.holds(k) {
                        assert(unloaded(unloads@, k));
                    }
                }
                assert forall|k: ChunkKey, d: ChunkData| #[trigger] cache_entries(old(store).cached_chunks).contains((k.cache_key_spec(), d))
                    implies cache_entries(store.cached_chunks).contains((k.cache_key_spec(), d)) || unloads_copy(unloads@, k, d) by {
                    if unloads_copy(prior, k, d) {
                        let j = choose|j: int| 0 <= j < prior.len() && (#[trigger] prior[j]).key == k && prior[j].data == d;
                        assert(unloads@[j] == prior[j]);
                    }
                }
                assert forall|k: ChunkKey| #[trigger] store.holds(k) implies old(store).holds(k) by {
                    if k == key {
                        if !before.holds(k) {
                            assert(!store.is_active(k));
                        }
                    } else {
                        if store.is_cached(k) {
                            assert(before.is_cached(k));
                        }
                    }
                }
                assert forall|j: int| 0 <= j < unloads@.len() implies old(store).holds(#[trigger] unloads@[j].key) by {
                    if j < prior.len() {
                        assert(unloads@[j] == prior[j]);
                    } else {
                        assert(before.holds(unloads@[j].key));
                    }
                }
                if before.is_active(key) {
                    let a = active_copy(before, key);
                    let j = index_of_key(before.active_chunks@, key);
                    assert(before.active_chunks@[j].0 == key);
                    assert(before.active_chunks@.contains((key, a)));
                    assert(old(store).active_chunks@.contains((key, a)));
                    lemma_active_copy(*old(store), key, a);
                    assert(leaving(*old(store), sub1, new_view, key));
                }
                assert forall|k: ChunkKey, d: ChunkData|
                    old(store).active_chunks@.contains((k, d)) && !leaving(*old(store), sub1, new_view, k)
                        implies #[trigger] store.active_chunks@.contains((k, d)) by {
                    assert(!leaving(*old(store), sub, new_view, k));
                    assert(before.active_chunks@.contains((k, d)));
                    if k == key {
                        lemma_active_copy(*old(store), k, d);
                    }
                }
                assert forall|k: ChunkKey, d: ChunkData| #[trigger] keeps(*store, k, d) implies evicted_copy(
                    *old(store),
                    *grid,
                    sub1,
                    new_view,
                    now,
                    k,
                    d,
                ) by {
                    if keeps(before, k, d) {
                        assert(evicted_copy(*old(store), *grid, sub, new_view, now, k, d));
                    }
                }
                assert forall|j: int| 0 <= j < unloads@.len() implies evicted_copy(
                    *old(store),
                    *grid,
                    sub1,
                    new_view,
                    now,
                    #[trigger] unloads@[j].key,
                    unloads@[j].data,
                ) by {
                    if j < prior.len() {
                        assert(unloads@[j] == prior[j]);
                        assert(evicted_copy(*old(store), *grid, sub, new_view, now, prior[j].key, prior[j].data));
                    } else {
                        assert(keeps(before, unloads@[j].key, unloads@[j].data));
                        assert(evicted_copy(*old(store), *grid, sub, new_view, now, unloads@[j].key, unloads@[j].data));
                    }
                }
                assert forall|k: ChunkKey, d: ChunkData|
                    #[trigger] keeps(*old(store), k, d) && !(leaving(*old(store), sub1, new_view, k)
                        && old(store).active_chunks@.contains((k, d))) implies keeps(*store, k, d) || unloads_copy(unloads@, k, d) by {
                    assert(!(leaving(*old(store), sub, new_view, k) && old(store).active_chunks@.contains((k, d))));
                    if unloads_copy(prior, k, d) {
                        let j = choose|j: int| 0 <= j < prior.len() && (#[trigger] prior[j]).key == k && prior[j].data == d;
                        assert(unloads@[j] == prior[j]);
                    } else {
                        assert(keeps(before, k, d));
                        if k == key && before.active_chunks@.contains((k, d)) {
                            assert(old(store).active_chunks@.contains((k, d)));
                        }
                    }
                }
                assert forall|k: ChunkKey| #[trigger] leaving(*old(store), sub1, new_view, k) implies exists|d: ChunkData| #[trigger] copied_back(
                    *grid,
                    k,
                    now,
                    active_copy(*old(store), k),
                    d,
                ) && (keeps(*store, k, d) || unloads_copy(unloads@, k, d)) by {
                    if leaving(*old(store), sub, new_view, k) {
                        let d = choose|d: ChunkData| #[trigger] copied_back(*grid, k, now, active_copy(*old(store), k), d) && (keeps(
                            before,
                            k,
                            d,
                        ) || unloads_copy(prior, k, d));
                        if unloads_copy(prior, k, d) {
                            let j = choose|j: int| 0 <= j < prior.len() && (#[trigger] prior[j]).key == k && prior[j].data == d;
                            assert(unloads@[j] == prior[j]);
                            assert(unloads_copy(unloads@, k, d));
                        } else {
                            assert(!before.is_active(k));
                            assert(!before.active_chunks@.contains((k, d))) by {
                                if before.active_chunks@.contains((k, d)) {
                                    lemma_active_copy(before, k, d);
                                }
                            }
                            assert(keeps(*store, k, d) || unloads_copy(unloads@, k, d));
                        }
                    } else {
                        assert(k == key);
                        assert(before.is_active(key)) by {
                            let a = active_copy(*old(store), key);
                            let j = index_of_key(old(store).active_chunks@, key);
                            assert(old(store).active_chunks@[j].0 == key);
                            assert(old(store).active_chunks@.contains((key, a)));
                        }
                        let d = cache_entries(store.cached_chunks).last().1;
                        assert(cache_entries(store.cached_chunks).contains((key.cache_key_spec(), d)));
                        assert(keeps(*store, key, d));
                        assert(copied_back(*grid, k, now, active_copy(*old(store), k), d));
                    }
                }
            }
        } else {
            proof {
                assert forall|k: ChunkKey| leaving(*old(store), sub1, new_view, k) implies leaving(*old(store), sub, new_view, k) by {}
                assert forall|k: ChunkKey, d: ChunkData| #[trigger] keeps(*store, k, d) implies evicted_copy(
                    *old(store),
                    *grid,
                    sub1,
                    new_view,
                    now,
                    k,
                    d,
                ) by {
                    assert(evicted_copy(*old(store), *grid, sub, new_view, now, k, d));
                }
                assert forall|j: int| 0 <= j < unloads@.len() implies evicted_copy(
                    *old(store),
                    *grid,
                    sub1,
                    new_view,
                    now,
                    #[trigger] unloads@[j].key,
                    unloads@[j].data,
                ) by {
                    assert(evicted_copy(*old(store), *grid, sub, new_view, now, unloads@[j].key, unloads@[j].data));
                }
                assert forall|k: ChunkKey| #[trigger] leaving(*old(store), sub1, new_view, k) implies exists|d: ChunkData| #[trigger] copied_back(
                    *grid,
                    k,
                    now,
                    active_copy(*old(store), k),
                    d,
                ) && (keeps(*store, k, d) || unloads_copy(unloads@, k, d)) by {
                    assert(leaving(*old(store), sub, new_view, k));
                }
                assert forall|k: ChunkKey, d: ChunkData|
                    #[trigger] keeps(*old(store), k, d) && !(leaving(*old(store), sub1, new_view, k)
                        && old(store).active_chunks@.contains((k, d))) implies keeps(*store, k, d) || unloads_copy(unloads@, k, d) by {
                    assert(!(leaving(*old(store), sub, new_view, k) && old(store).active_chunks@.contains((k, d))));
                }
            }
        }
        proof {
            assert forall|k: ChunkKey| #[trigger] old(store).is_active(k) && (new_view.contains_spec(k) || !sub1.contains(k))
                implies store.is_active(k) by {
                if !new_view.contains_spec(k) {
                    assert(!sub.contains(k));
                    assert(k != key);
                }
            }
            assert forall|k: ChunkKey| #[trigger] store.is_active(k) && sub1.contains(k) implies new_view.contains_spec(k) by {
                if k != key {
                    assert(sub.contains(k));
                    assert(before.is_active(k));
                }
            }
        }
        i = i + 1;
    }
    proof {
        assert(keys@.subrange(0, keys@.len() as int) == keys@);
    }
}

/// `k` lies in `view`, when there is one.
pub open spec fn in_view(view: Option<ChunkView>, k: ChunkKey) -> bool {
    match view {
        Some(v) => v.contains_spec(k),
        None => false,
    }
}

/// Appending one request to the requests appends its key to their keys.
proof fn lemma_requested_push(requests: Seq<ChunkLoadRequest>, r: ChunkLoadRequest)
    ensures
        requested_keys(requests.push(r)) == requested_keys(requests).push(r.key),
{
    assert(requested_keys(requests.push(r)) =~= requested_keys(requests).push(r.key));
}

/// The chunks of `new_view` that were not in `old_view` are brought in, in the order `keys`
/// lists them: out of the cache where they are there, asked for otherwise.
fn promote_inside(
    store: &mut WorldStore,
    grid: &mut ActiveWorldGrid,
    keys: &Vec<ChunkKey>,
    old_view: Option<ChunkView>,
    new_view: ChunkView,
    requests: &mut Vec<ChunkLoadRequest>,
)
    requires
        old(store).wf(),
        old(grid).wf(),
        old(requests)@.len() == 0,
        forall|k: ChunkKey| keys@.contains(k) <==> new_view.contains_spec(k),
        forall|i: int, j: int| 0 <= i < j < keys@.len() ==> crate::chunk::key_precedes(keys@[i], keys@[j]),
        forall|k: ChunkKey| #[trigger] new_view.contains_spec(k) ==> k.in_range(),
        forall|k: ChunkKey| #[trigger] old(store).is_active(k) ==> new_view.contains_spec(k) && in_view(old_view, k),
        forall|k: ChunkKey|
            new_view.contains_spec(k) && #[trigger] in_view(old_view, k) ==> old(store).is_active(k) || old(
                store,
            ).is_pending(k),
    ensures
        final(store).wf(),
        final(grid).wf(),
        final(grid).width == old(grid).width,
        final(grid).height == old(grid).height,
        final(grid).window_origin == old(grid).window_origin,
        forall|k: ChunkKey| #[trigger] final(store).is_active(k) ==> new_view.contains_spec(k),
        forall|k: ChunkKey| #[trigger] new_view.contains_spec(k) ==> final(store).is_active(k) || final(store).is_pending(k),
        forall|k: ChunkKey| #[trigger] old(store).holds(k) ==> final(store).holds(k),
        forall|k: ChunkKey| #[trigger] final(store).holds(k) ==> old(store).holds(k),
        final(store).pending_requests@ == old(store).pending_requests@ + requested_keys(final(requests)@),
        forall|i: int| 0 <= i < final(requests)@.len() ==> new_view.contains_spec(#[trigger] final(requests)@[i].key),
        forall|k: ChunkKey, d: ChunkData| #[trigger] keeps(*final(store), k, d) <==> keeps(*old(store), k, d),
        final(grid).buffer_head == old(grid).buffer_head,
        covers_view(*old(grid), new_view) ==> forall|k: ChunkKey|
            #![trigger final(store).is_active(k)]
            final(store).is_active(k) && !old(store).is_active(k) ==> shows(*final(grid), k, active_copy(*final(store), k)),
        covers_view(*old(grid), new_view) ==> forall|k: ChunkKey| #[trigger] old(store).is_active(k)
            ==> final(store).is_active(k) && active_copy(*final(store), k) == active_copy(*old(store), k)
            && final(grid).chunk_of(final(grid).cells@, k.key.x * 64, k.key.y * 64)
            == old(grid).chunk_of(old(grid).cells@, k.key.x * 64, k.key.y * 64),
{
    let ghost covered = covers_view(*old(grid), new_view);
    let mut j: usize = 0;
    while j < keys.len()
        invariant
            j <= keys@.len(),
            store.wf(),
            grid.wf(),
            grid.width == old(grid).width,
            grid.height == old(grid).height,
            grid.window_origin == old(grid).window_origin,
            forall|k: ChunkKey| keys@.contains(k) <==> new_view.contains_spec(k),
            forall|a: int, b: int| 0 <= a < b < keys@.len() ==> crate::chunk::key_precedes(keys@[a], keys@[b]),
            forall|k: ChunkKey| #[trigger] new_view.contains_spec(k) ==> k.in_range(),
            forall|k: ChunkKey|
                #[trigger] store.is_active(k) ==> new_view.contains_spec(k) && (in_view(old_view, k) || keys@.subrange(
                    0,
                    j as int,
                ).contains(k)),
            forall|k: ChunkKey|
                new_view.contains_spec(k) && (in_view(old_view, k) || keys@.subrange(0, j as int).contains(k))
                    ==> #[trigger] store.is_active(k) || store.is_pending(k),
            forall|k: ChunkKey| #[trigger] old(store).holds(k) ==> store.holds(k),
            forall|k: ChunkKey| #[trigger] store.holds(k) ==> old(store).holds(k),
            store.pending_requests@ == old(store).pending_requests@ + requested_keys(requests@),
            forall|i: int| 0 <= i < requests@.len() ==> new_view.contains_spec(#[trigger] requests@[i].key),
            forall|k: ChunkKey, d: ChunkData| #[trigger] keeps(*store, k, d) <==> keeps(*old(store), k, d),
            grid.buffer_head == old(grid).buffer_head,
            covered == covers_view(*old(grid), new_view),
            covered ==> covers_view(*grid, new_view),
            forall|k: ChunkKey| #[trigger] old(store).is_active(k) ==> new_view.contains_spec(k),
            covered ==> forall|k: ChunkKey|
                #![trigger store.is_active(k)]
                store.is_active(k) && !old(store).is_active(k) ==> shows(*grid, k, active_copy(*store, k)),
            covered ==> forall|k: ChunkKey| #[trigger] old(store).is_active(k) ==> store.is_active(k)
                && active_copy(*store, k) == active_copy(*old(store), k)
                && grid.chunk_of(grid.cells@, k.key.x * 64, k.key.y * 64)
                == old(grid).chunk_of(old(grid).cells@, k.key.x * 64, k.key.y * 64),
        decreases keys@.len() - j,
    {
        let key = keys[j];
        let fresh = match old_view {
            Some(v) => !v.contains(&key),
            None => true,
        };
        let ghost before = *store;
        let ghost grid_before = *grid;
        let ghost prior = requests@;
        proof {
            assert(keys@.contains(key));
            assert(new_view.contains_spec(key));
            assert(!keys@.subrange(0, j as int).contains(key)) by {
                if keys@.subrange(0, j as int).contains(key) {
                    let a = choose|a: int| 0 <= a < j && keys@.subrange(0, j as int)[a] == key;
                    assert(crate::chunk::key_precedes(keys@[a], keys@[j as int]));
                }
            }
        }
        if fresh {
            promote_chunk(store, grid, key, requests);
            proof {
                if requests@ != prior {
                    lemma_requested_push(prior, ChunkLoadRequest { key });
                }
                assert(!before.is_active(key));
                if covered {
                    lemma_promote_shows(before, *store, grid_before, *grid, key, new_view);
                    assert forall|k: ChunkKey|
                        #![trigger store.is_active(k)]
                        store.is_active(k) && !old(store).is_active(k) implies shows(*grid, k, active_copy(*store, k)) by {
                        if k != key {
                            assert(before.is_active(k));
                        }
                    }
                }
            }
        }
        proof {
            assert forall|k: ChunkKey|
                #[trigger] store.is_active(k) implies new_view.contains_spec(k) && (in_view(old_view, k) || keys@.subrange(
                    0,
                    j + 1,
                ).contains(k)) by {
                if k == key {
                    assert(keys@.subrange(0, j + 1)[j as int] == key);
                } else {
                    assert(before.is_active(k));
                    if keys@.subrange(0, j as int).contains(k) {
                        let a = choose|a: int| 0 <= a < j && keys@.subrange(0, j as int)[a] == k;
                        assert(keys@.subrange(0, j + 1)[a] == k);
                    }
                }
            }
            assert forall|k: ChunkKey|
                new_view.contains_spec(k) && (in_view(old_view, k) || keys@.subrange(0, j + 1).contains(k))
                    implies #[trigger] store.is_active(k) || store.is_pending(k) by {
                if k != key {
                    if keys@.subrange(0, j + 1).contains(k) {
                        let a = choose|a: int| 0 <= a < j + 1 && #[trigger] keys@.subrange(0, j + 1)[a] == k;
                        assert(a != j);
                        assert(keys@.subrange(0, j as int)[a] == k);
                    }
                    assert(before.is_active(k) || before.is_pending(k));
                    if before.is_pending(k) {
                        assert(store.pending_requests@.contains(k)) by {
                            let a = choose|a: int| 0 <= a < before.pending_requests@.len() && before.pending_requests@[a] == k;
                            assert(store.pending_requests@[a] == k);
                        }
                    }
                } else if !fresh {
                    assert(in_view(old_view, k));
                }
            }
            assert forall|i: int| 0 <= i < requests@.len() implies new_view.contains_spec(#[trigger] requests@[i].key) by {
                if i < prior.len() {
                    assert(requests@[i] == prior[i]);
                }
            }
        }
        j = j + 1;
    }
    proof {
        assert(keys@.subrange(0, keys@.len() as int) == keys@);
    }
}

/// Whether a preload asks for chunk `k`: it lies outside the old preload area, and `store`
/// neither holds it nor awaits it among `pending`.
spec fn wants_preload(store: WorldStore, old_preload: Option<ChunkView>, pending: Seq<ChunkKey>, k: ChunkKey) -> bool {
    &&& !in_view(old_preload, k)
    &&& !store.is_active(k)
    &&& !store.is_cached(k)
    &&& !pending.contains(k)
}

/// The keys that a preload walking the first `n` of `keys` asks for, in order: each wanted
/// key that neither `store` nor an earlier pick already awaits.
spec fn preload_picks(store: WorldStore, old_preload: Option<ChunkView>, keys: Seq<ChunkKey>, n: int) -> Seq<ChunkKey>
    decreases n,
{
    if n <= 0 {
        Seq::empty()
    } else {
        let prev = preload_picks(store, old_preload, keys, n - 1);
        if wants_preload(store, old_preload, store.pending_requests@ + prev, keys[n - 1]) {
            prev.push(keys[n - 1])
        } else {
            prev
        }
    }
}

/// The chunks of `new_preload` that were not in `old_preload`, and that the store has no copy
/// of, are asked for unless they already were.
fn request_preload(
    store: &mut WorldStore,
    keys: &Vec<ChunkKey>,
    old_preload: Option<ChunkView>,
    requests: &mut Vec<ChunkLoadRequest>,
)
    requires
        old(store).wf(),
    ensures
        final(store).wf(),
        final(store).active_chunks@ == old(store).active_chunks@,
        final(store).cached_chunks == old(store).cached_chunks,
        final(requests)@.len() >= old(requests)@.len(),
        final(requests)@.subrange(0, old(requests)@.len() as int) == old(requests)@,
        final(store).pending_requests@ == old(store).pending_requests@ + requested_keys(
            final(requests)@.subrange(old(requests)@.len() as int, final(requests)@.len() as int),
        ),
        forall|i: int|
            old(requests)@.len() <= i < final(requests)@.len() ==> keys@.contains(#[trigger] final(requests)@[i].key),
        requested_keys(final(requests)@.subrange(old(requests)@.len() as int, final(requests)@.len() as int))
            == preload_picks(*old(store), old_preload, keys@, keys@.len() as int),
{
    let mut j: usize = 0;
    let ghost r0 = requests@.len();
    while j < keys.len()
        invariant
            j <= keys@.len(),
            store.wf(),
            store.active_chunks@ == old(store).active_chunks@,
            store.cached_chunks == old(store).cached_chunks,
            r0 == old(requests)@.len(),
            requests@.len() >= r0,
            requests@.subrange(0, r0 as int) == old(requests)@,
            store.pending_requests@ == old(store).pending_requests@ + requested_keys(
                requests@.subrange(r0 as int, requests@.len() as int),
            ),
            forall|i: int| r0 <= i < requests@.len() ==> keys@.contains(#[trigger] requests@[i].key),
            requested_keys(requests@.subrange(r0 as int, requests@.len() as int)) == preload_picks(
                *old(store),
                old_preload,
                keys@,
                j as int,
            ),
        decreases keys@.len() - j,
    {
        let key = keys[j];
        let ghost prior0 = requests@;
        let ghost store0 = *store;
        let fresh = match old_preload {
            Some(v) => !v.contains(&key),
            None => true,
        };
        if fresh {
            if find_active(&store.active_chunks, &key).is_none() && !cache_contains(&store.cached_chunks, &key.cache_key()) {
                let ghost before = *store;
                let ghost prior = requests@;
                if insert_pending(&mut store.pending_requests, key) {
                    requests.push(ChunkLoadRequest { key });
                    proof {
                        lemma_requested_push(prior.subrange(r0 as int, prior.len() as int), ChunkLoadRequest { key });
                        assert(requests@.subrange(r0 as int, requests@.len() as int) == prior.subrange(
                            r0 as int,
                            prior.len() as int,
                        ).push(ChunkLoadRequest { key }));
                        assert(requests@.subrange(0, r0 as int) == prior.subrange(0, r0 as int));
                        assert(keys@[j as int] == key);
                    }
                }
                proof {
                    assert forall|k: ChunkKey| #[trigger] store.is_pending(k) implies !store.holds(k) by {
                        if k != key {
                            assert(before.is_pending(k));
                        } else {
                            assert(!before.is_active(k));
                        }
                    }
                    assert forall|i: int| r0 <= i < requests@.len() implies keys@.contains(#[trigger] requests@[i].key) by {
                        if i < prior.len() {
                            assert(requests@[i] == prior[i]);
                        }
                    }
                }
            }
        }
        proof {
            let picks = preload_picks(*old(store), old_preload, keys@, j as int);
            assert(store0.pending_requests@ == old(store).pending_requests@ + picks);
            assert(keys@[j as int] == key);
            assert(fresh == !in_view(old_preload, key));
            assert(store0.is_active(key) == old(store).is_active(key));
            assert(store0.is_cached(key) == old(store).is_cached(key));
            if !wants_preload(*old(store), old_preload, old(store).pending_requests@ + picks, key) {
                assert(requests@ == prior0);
            }
        }
        j = j + 1;
    }
    proof {
        assert(keys@.len() == j);
    }
}

/// `requested_keys` splits where the requests split.
proof fn lemma_requested_split(requests: Seq<ChunkLoadRequest>, n: int)
    requires
        0 <= n <= requests.len(),
    ensures
        requested_keys(requests) == requested_keys(requests.subrange(0, n)) + requested_keys(
            requests.subrange(n, requests.len() as int),
        ),
{
    assert(requested_keys(requests) =~= requested_keys(requests.subrange(0, n)) + requested_keys(
        requests.subrange(n, requests.len() as int),
    ));
}

/// Chunk `k` leaves the active window as the manager moves it to the window around `center`.
pub open spec fn leaves_window(manager: ChunkManager, store: WorldStore, center: ChunkKey, k: ChunkKey) -> bool {
    &&& manager.active_view != Some(manager.active_view_at(center))
    &&& store.is_active(k)
    &&& !manager.active_view_at(center).contains_spec(k)
}

/// Keeps the active window and the preloaded area around `center`, the chunk that holds the
/// focus, at time `now` (microseconds). When the active window moves, chunks that leave it are
/// copied back from the grid into the cache (what the cache gives up is to be written out), the
/// grid's window follows, and chunks that enter it come out of the cache or are asked for.
/// When the area around the window reaches past the preloaded one, a wider area is preloaded:
/// its new chunks that the store has no copy of are asked for.
pub fn manage_chunk_window(
    center: ChunkKey,
    now: u64,
    manager: &mut ChunkManager,
    grid: &mut ActiveWorldGrid,
    store: &mut WorldStore,
) -> (traffic: ChunkTraffic)
    requires
        old(store).wf(),
        old(grid).wf(),
        old(manager).tracks(old(store)),
        old(manager).reaches_fit(center),
    ensures
        final(store).wf(),
        final(grid).wf(),
        final(manager).tracks(final(store)),
        final(manager).active_view == Some(old(manager).active_view_at(center)),
        final(manager).preload_view == (if old(manager).needs_preload(center) {
            Some(old(manager).preload_view_at(center))
        } else {
            old(manager).preload_view
        }),
        final(manager).active_radius_x == old(manager).active_radius_x,
        final(manager).active_radius_y == old(manager).active_radius_y,
        final(manager).preload_ext_radius == old(manager).preload_ext_radius,
        final(manager).preload_trigger == old(manager).preload_trigger,
        final(grid).width == old(grid).width,
        final(grid).height == old(grid).height,
        old(manager).active_view == Some(old(manager).active_view_at(center)) ==> final(grid).cells@ == old(
            grid,
        ).cells@ && final(grid).window_origin == old(grid).window_origin && final(store).active_chunks@ == old(
            store,
        ).active_chunks@ && final(store).cached_chunks == old(store).cached_chunks,
        old(manager).active_view != Some(old(manager).active_view_at(center)) ==> final(grid).window_origin.x
            == old(manager).active_view_at(center).min.key.x * 64 && final(grid).window_origin.y == old(
            manager,
        ).active_view_at(center).min.key.y * 64,
        forall|k: ChunkKey| #[trigger] old(store).holds(k) ==> final(store).holds(k) || unloaded(traffic.unloads@, k),
        forall|i: int| 0 <= i < traffic.unloads@.len() ==> old(store).holds(#[trigger] traffic.unloads@[i].key),
        final(store).pending_requests@ == old(store).pending_requests@ + requested_keys(traffic.requests@),
        forall|i: int|
            0 <= i < traffic.requests@.len() ==> in_view(final(manager).active_view, #[trigger] traffic.requests@[i].key)
                || in_view(final(manager).preload_view, traffic.requests@[i].key),
        forall|k: ChunkKey, d: ChunkData| #[trigger] keeps(*final(store), k, d) ==> keeps(*old(store), k, d) || (
        leaves_window(*old(manager), *old(store), center, k) && copied_back(*old(grid), k, now, active_copy(*old(store), k), d)),
        forall|i: int| 0 <= i < traffic.unloads@.len() ==> keeps(*old(store), #[trigger] traffic.unloads@[i].key, traffic.unloads@[i].data) || (
        leaves_window(*old(manager), *old(store), center, traffic.unloads@[i].key) && copied_back(
            *old(grid),
            traffic.unloads@[i].key,
            now,
            active_copy(*old(store), traffic.unloads@[i].key),
            traffic.unloads@[i].data,
        )),
        forall|k: ChunkKey, d: ChunkData| #[trigger] keeps(*old(store), k, d) && !(leaves_window(*old(manager), *old(store), center, k)
            && old(store).active_chunks@.contains((k, d))) ==> keeps(*final(store), k, d) || unloads_copy(traffic.unloads@, k, d),
        forall|k: ChunkKey| #[trigger] leaves_window(*old(manager), *old(store), center, k) ==> exists|d: ChunkData| #[trigger] copied_back(
            *old(grid),
            k,
            now,
            active_copy(*old(store), k),
            d,
        ) && (keeps(*final(store), k, d) || unloads_copy(traffic.unloads@, k, d)),
        spans_radii(*old(grid), old(manager).active_radius_x as int, old(manager).active_radius_y as int)
            ==> forall|k: ChunkKey|
            #![trigger final(store).is_active(k)]
            final(store).is_active(k) && !old(store).is_active(k) ==> shows(*final(grid), k, active_copy(*final(store), k)),
        spans_radii(*old(grid), old(manager).active_radius_x as int, old(manager).active_radius_y as int)
            ==> forall|k: ChunkKey|
            #![trigger final(store).is_active(k), old(store).is_active(k)]
            old(store).is_active(k) && final(store).is_active(k) ==> active_copy(*final(store), k) == active_copy(
                *old(store),
                k,
            ) && final(grid).chunk_of(final(grid).cells@, k.key.x * 64, k.key.y * 64)
            == old(grid).chunk_of(old(grid).cells@, k.key.x * 64, k.key.y * 64),
{
    let mut unloads: Vec<ChunkUnloadEvent> = Vec::new();
    let mut requests: Vec<ChunkLoadRequest> = Vec::new();
    let rx = manager.active_radius_x;
    let ry = manager.active_radius_y;
    let trigger = manager.preload_trigger;
    let ext = manager.preload_ext_radius;
    let new_active_view = ChunkView::from_rect_xy(center, rx as i32, ry as i32);
    let old_active_view = manager.active_view;
    let ghost store0 = *store;
    let ghost grid0 = *grid;
    proof {
        assert forall|k: ChunkKey| #[trigger] new_active_view.contains_spec(k) implies k.in_range() by {}
    }
    let unchanged = match old_active_view {
        Some(v) => v == new_active_view,
        None => false,
    };
    if !unchanged {
        match old_active_view {
            Some(old_active) => {
                let old_keys = old_active.keys();
                evict_outside(store, grid, &old_keys, new_active_view, now, &mut unloads);
                proof {
                    assert forall|k: ChunkKey| #[trigger] leaving(store0, old_keys@, new_active_view, k) == leaves_window(
                        *old(manager),
                        store0,
                        center,
                        k,
                    ) by {
                        if store0.is_active(k) {
                            assert(old_active.contains_spec(k));
                        }
                    }
                    assert forall|k: ChunkKey, d: ChunkData| #[trigger] keeps(*store, k, d) implies keeps(store0, k, d) || (
                    leaves_window(*old(manager), store0, center, k) && copied_back(grid0, k, now, active_copy(store0, k), d)) by {
                        assert(evicted_copy(store0, grid0, old_keys@, new_active_view, now, k, d));
                        assert(leaving(store0, old_keys@, new_active_view, k) == leaves_window(*old(manager), store0, center, k));
                    }
                    assert forall|i: int| 0 <= i < unloads@.len() implies keeps(store0, #[trigger] unloads@[i].key, unloads@[i].data) || (
                    leaves_window(*old(manager), store0, center, unloads@[i].key) && copied_back(
                        grid0,
                        unloads@[i].key,
                        now,
                        active_copy(store0, unloads@[i].key),
                        unloads@[i].data,
                    )) by {
                        assert(evicted_copy(store0, grid0, old_keys@, new_active_view, now, unloads@[i].key, unloads@[i].data));
                        assert(leaving(store0, old_keys@, new_active_view, unloads@[i].key) == leaves_window(
                            *old(manager),
                            store0,
                            center,
                            unloads@[i].key,
                        ));
                    }
                    assert forall|k: ChunkKey, d: ChunkData| #[trigger] keeps(store0, k, d) && !(leaves_window(*old(manager), store0, center, k)
                        && store0.active_chunks@.contains((k, d))) implies keeps(*store, k, d) || unloads_copy(unloads@, k, d) by {
                        assert(leaving(store0, old_keys@, new_active_view, k) == leaves_window(*old(manager), store0, center, k));
                    }
                    assert forall|k: ChunkKey| #[trigger] leaves_window(*old(manager), store0, center, k) implies exists|d: ChunkData| #[trigger] copied_back(
                        grid0,
                        k,
                        now,
                        active_copy(store0, k),
                        d,
                    ) && (keeps(*store, k, d) || unloads_copy(unloads@, k, d)) by {
                        assert(leaving(store0, old_keys@, new_active_view, k) == leaves_window(*old(manager), store0, center, k));
                    }
                }
            },
            None => {
                proof {
                    assert forall|k: ChunkKey| !#[trigger] leaves_window(*old(manager), store0, center, k) by {
                        if store0.is_active(k) {
                            let j = index_of_key(store0.active_chunks@, k);
                        }
                    }
                }
            },
        }
        let ghost store1 = *store;
        proof {
            assert forall|k: ChunkKey| #[trigger] store1.is_active(k) implies new_active_view.contains_spec(k)
                && in_view(old_active_view, k) by {
                assert(store0.is_active(k));
            }
            assert forall|k: ChunkKey| new_active_view.contains_spec(k) && #[trigger] in_view(old_active_view, k)
                implies store1.is_active(k) || store1.is_pending(k) by {
                assert(store0.is_active(k) || store0.is_pending(k));
            }
        }
        assert(CHUNK_SIZE as i32 == 64);
        grid.shift_window(
            IVec2 {
                x: new_active_view.min.key.x * (CHUNK_SIZE as i32),
                y: new_active_view.min.key.y * (CHUNK_SIZE as i32),
            },
        );
        let ghost grid_s = *grid;
        let new_keys = new_active_view.keys();
        promote_inside(store, grid, &new_keys, old_active_view, new_active_view, &mut requests);
        manager.active_view = Some(new_active_view);
        proof {
            if spans_radii(grid0, rx as int, ry as int) {
                assert forall|k: ChunkKey| #[trigger] new_active_view.contains_spec(k) implies grid_s.covers_chunk_xy(
                    k.key.x * 64,
                    k.key.y * 64,
                ) by {
                    assert(k.key.x * 64 - new_active_view.min.key.x * 64 == (k.key.x - new_active_view.min.key.x) * 64);
                    assert(k.key.y * 64 - new_active_view.min.key.y * 64 == (k.key.y - new_active_view.min.key.y) * 64);
                }
                assert(covers_view(grid_s, new_active_view));
                assert forall|k: ChunkKey|
                    #![trigger store.is_active(k), store0.is_active(k)]
                    store0.is_active(k) && store.is_active(k) implies active_copy(*store, k) == active_copy(store0, k)
                    && grid.chunk_of(grid.cells@, k.key.x * 64, k.key.y * 64)
                    == grid0.chunk_of(grid0.cells@, k.key.x * 64, k.key.y * 64) by {
                    assert(new_active_view.contains_spec(k));
                    assert(store1.is_active(k));
                    let a = index_of_key(store1.active_chunks@, k);
                    assert(store1.active_chunks@.contains(store1.active_chunks@[a]));
                    assert(store0.active_chunks@.contains(store1.active_chunks@[a]));
                    lemma_active_copy(store0, k, store1.active_chunks@[a].1);
                    lemma_active_copy(store1, k, store1.active_chunks@[a].1);
                    assert(grid_s.chunk_of(grid0.cells@, k.key.x * 64, k.key.y * 64) =~= grid0.chunk_of(
                        grid0.cells@,
                        k.key.x * 64,
                        k.key.y * 64,
                    ));
                }
            }
        }
        proof {
            assert forall|k: ChunkKey, d: ChunkData| #[trigger] keeps(*store, k, d) implies keeps(store0, k, d) || (
            leaves_window(*old(manager), store0, center, k) && copied_back(grid0, k, now, active_copy(store0, k), d)) by {
                assert(keeps(store1, k, d));
            }
            assert forall|k: ChunkKey, d: ChunkData| #[trigger] keeps(store0, k, d) && !(leaves_window(*old(manager), store0, center, k)
                && store0.active_chunks@.contains((k, d))) implies keeps(*store, k, d) || unloads_copy(unloads@, k, d) by {
                if keeps(store1, k, d) {
                    assert(keeps(*store, k, d));
                }
            }
            assert forall|k: ChunkKey| #[trigger] leaves_window(*old(manager), store0, center, k) implies exists|d: ChunkData| #[trigger] copied_back(
                grid0,
                k,
                now,
                active_copy(store0, k),
                d,
            ) && (keeps(*store, k, d) || unloads_copy(unloads@, k, d)) by {
                let d = choose|d: ChunkData| #[trigger] copied_back(grid0, k, now, active_copy(store0, k), d) && (keeps(
                    store1,
                    k,
                    d,
                ) || unloads_copy(unloads@, k, d));
                if keeps(store1, k, d) {
                    assert(keeps(*store, k, d));
                }
            }
        }
    } else {
        proof {
            assert forall|k: ChunkKey| !#[trigger] leaves_window(*old(manager), store0, center, k) by {}
            assert(unloads@.len() == 0);
        }
    }
    let ghost store2 = *store;
    let ghost requests2 = requests@;
    proof {
        assert forall|k: ChunkKey| #[trigger] store2.is_active(k) implies new_active_view.contains_spec(k) by {
            if unchanged {
                assert(store0.is_active(k));
            }
        }
        assert forall|k: ChunkKey| #[trigger] new_active_view.contains_spec(k) implies store2.is_active(k)
            || store2.is_pending(k) by {
            if unchanged {
                assert(old_active_view.unwrap().contains_spec(k));
            }
        }
    }
    let requires_preload_fetch = match manager.preload_view {
        Some(current_preload) => {
            let danger_view = ChunkView::from_rect_xy(center, (rx + trigger) as i32, (ry + trigger) as i32);
            !current_preload.contains(&danger_view.min) || !current_preload.contains(&danger_view.max)
        },
        None => true,
    };
    if requires_preload_fetch {
        let new_preload_view = ChunkView::from_rect_xy(center, (rx + ext) as i32, (ry + ext) as i32);
        let preload_keys = new_preload_view.keys();
        request_preload(store, &preload_keys, manager.preload_view, &mut requests);
        manager.preload_view = Some(new_preload_view);
        proof {
            lemma_requested_split(requests@, requests2.len() as int);
            assert forall|i: int| requests2.len() <= i < requests@.len() implies new_preload_view.contains_spec(
                #[trigger] requests@[i].key,
            ) by {
                assert(preload_keys@.contains(requests@[i].key));
            }
        }
    }
    proof {
        assert forall|i: int| 0 <= i < requests2.len() implies new_active_view.contains_spec(#[trigger] requests@[i].key) by {
            assert(requests@.subrange(0, requests2.len() as int)[i] == requests2[i]);
            if unchanged {
                assert(requests2.len() == 0);
            }
        }
    }
    proof {
        assert forall|k: ChunkKey| #[trigger] store2.is_pending(k) implies store.is_pending(k) by {
            let a = choose|a: int| 0 <= a < store2.pending_requests@.len() && store2.pending_requests@[a] == k;
            assert(store.pending_requests@[a] == k);
        }
        assert forall|k: ChunkKey| #[trigger] store.is_active(k) implies new_active_view.contains_spec(k) by {
            assert(store2.is_active(k));
        }
        assert forall|k: ChunkKey| #[trigger] new_active_view.contains_spec(k) implies store.is_active(k)
            || store.is_pending(k) by {
            assert(store2.is_active(k) || store2.is_pending(k));
        }
        assert forall|k: ChunkKey, d: ChunkData| #![trigger keeps(*store, k, d)] keeps(*store, k, d) == keeps(store2, k, d) by {}
    }
    ChunkTraffic { unloads, requests }
}

/// Puts `(key, data)` among the active chunks, in place of the entry with `key` if there is one.
fn insert_active(active: &mut Vec<(ChunkKey, ChunkData)>, key: ChunkKey, data: ChunkData)
    requires
        keys_distinct(old(active)@),
    ensures
        keys_distinct(final(active)@),
        has_key(final(active)@, key),
        forall|k: ChunkKey| #[trigger] has_key(final(active)@, k) <==> has_key(old(active)@, k) || k == key,
        forall|i: int|
            0 <= i < final(active)@.len() ==> #[trigger] final(active)@[i] == (key, data) || (old(active)@.contains(
                final(active)@[i],
            ) && final(active)@[i].0 != key),
        forall|e: (ChunkKey, ChunkData)| #[trigger] old(active)@.contains(e) && e.0 != key ==> final(active)@.contains(e),
{
    let ghost before = active@;
    match find_active(active, &key) {
        Some(i) => {
            let _ = active.remove(i);
            active.insert(i, (key, data));
            proof {
                assert(active@ =~= before.update(i as int, (key, data)));
                assert forall|a: int, b: int| 0 <= a < b < active@.len() implies #[trigger] active@[a].0 != #[trigger] active@[b].0 by {
                    assert(before[a].0 != before[b].0);
                }
                assert(active@[i as int] == (key, data));
                assert forall|k: ChunkKey| #[trigger] has_key(active@, k) <==> has_key(before, k) || k == key by {
                    if k == key {
                        assert(active@[i as int].0 == k);
                    }
                    if has_key(before, k) {
                        let j = choose|j: int| 0 <= j < before.len() && #[trigger] before[j].0 == k;
                        if j != i {
                            assert(active@[j].0 == k);
                        }
                    }
                    if has_key(active@, k) {
                        let j = choose|j: int| 0 <= j < active@.len() && #[trigger] active@[j].0 == k;
                        if j != i {
                            assert(before[j].0 == k);
                        }
                    }
                }
                assert forall|j: int| 0 <= j < active@.len() implies #[trigger] active@[j] == (key, data) || (before.contains(
                    active@[j],
                ) && active@[j].0 != key) by {
                    if j != i {
                        assert(active@[j] == before[j]);
                        assert(before.contains(before[j]));
                        assert(before[j].0 != before[i as int].0);
                    }
                }
                assert forall|e: (ChunkKey, ChunkData)| #[trigger] before.contains(e) && e.0 != key implies active@.contains(e) by {
                    let j = choose|j: int| 0 <= j < before.len() && before[j] == e;
                    assert(j != i);
                    assert(active@[j] == e);
                }
            }
        },
        None => {
            active.push((key, data));
            proof {
                lemma_push_keys(before, (key, data));
                assert forall|j: int| 0 <= j < active@.len() implies #[trigger] active@[j] == (key, data) || (before.contains(
                    active@[j],
                ) && active@[j].0 != key) by {
                    if j < before.len() {
                        assert(active@[j] == before[j]);
                        assert(before.contains(before[j]));
                    }
                }
                assert forall|e: (ChunkKey, ChunkData)| #[trigger] before.contains(e) && e.0 != key implies active@.contains(e) by {
                    let j = choose|j: int| 0 <= j < before.len() && before[j] == e;
                    assert(active@[j] == e);
                }
            }
        },
    }
}

/// Catches a chunk up on the time it spent out of memory. No physics is replayed yet: the
/// chunk is left as it is.
fn fast_forward_chunk(chunk_data: &mut ChunkData, delta_micros: u64)
    ensures
        *final(chunk_data) == *old(chunk_data),
{
}

/// Takes in a chunk that arrived at time `now` (microseconds): it is no longer pending; it is
/// stamped with `now`; inside the active window it is copied into the grid and becomes active,
/// outside it goes into the cache, and what the cache gives up for it is returned, to be
/// written out.
pub fn handle_chunk_loaded(
    event: ChunkLoadedEvent,
    now: u64,
    manager: &ChunkManager,
    grid: &mut ActiveWorldGrid,
    store: &mut WorldStore,
) -> (unloads: Vec<ChunkUnloadEvent>)
    requires
        old(store).wf(),
        old(grid).wf(),
        manager.tracks(old(store)),
        event.key.in_range(),
        event.data.cells@.len() == CHUNK_CELL_COUNT,
    ensures
        final(store).wf(),
        final(grid).wf(),
        manager.tracks(final(store)),
        final(grid).width == old(grid).width,
        final(grid).height == old(grid).height,
        final(grid).window_origin == old(grid).window_origin,
        !final(store).is_pending(event.key),
        forall|k: ChunkKey| k != event.key ==> (#[trigger] final(store).is_pending(k) <==> old(store).is_pending(k)),
        in_view(manager.active_view, event.key) ==> ({
            &&& final(store).active_chunks@.contains(
                (event.key, ChunkData { cells: event.data.cells, last_simulated: now, theme: event.data.theme }),
            )
            &&& final(grid).cells@ == old(grid).loaded_cells(
                old(grid).cells@,
                event.key.key.x * 64,
                event.key.key.y * 64,
                event.data.cells@,
            )
            &&& final(store).cached_chunks == old(store).cached_chunks
            &&& unloads@.len() == 0
        }),
        !in_view(manager.active_view, event.key) ==> ({
            &&& cache_entries(final(store).cached_chunks).last() == (
                event.key.cache_key_spec(),
                ChunkData { cells: event.data.cells, last_simulated: now, theme: event.data.theme },
            )
            &&& final(store).active_chunks@ == old(store).active_chunks@
            &&& final(grid).cells@ == old(grid).cells@
            &&& unloads@.len() <= 1
        }),
        forall|k: ChunkKey| #[trigger] old(store).holds(k) ==> final(store).holds(k) || unloaded(unloads@, k),
        forall|i: int| 0 <= i < unloads@.len() ==> old(store).holds(#[trigger] unloads@[i].key),
        forall|k: ChunkKey, d: ChunkData| #[trigger] keeps(*final(store), k, d) ==> keeps(*old(store), k, d) || (k == event.key
            && d == (ChunkData { cells: event.data.cells, last_simulated: now, theme: event.data.theme })),
        forall|i: int| 0 <= i < unloads@.len() ==> keeps(*old(store), #[trigger] unloads@[i].key, unloads@[i].data),
        forall|k: ChunkKey, d: ChunkData| #[trigger] keeps(*old(store), k, d) && !(k == event.key && old(store).active_chunks@.contains(
            (k, d),
        )) ==> keeps(*final(store), k, d) || unloads_copy(unloads@, k, d),
{
    let mut unloads: Vec<ChunkUnloadEvent> = Vec::new();
    let key = event.key;
    let ghost before = *store;
    remove_pending(&mut store.pending_requests, &key);
    let mut chunk_data = event.data;
    if now > chunk_data.last_simulated && now - chunk_data.last_simulated > 1_000_000 {
        let delta = now - chunk_data.last_simulated;
        fast_forward_chunk(&mut chunk_data, delta);
    }
    chunk_data.last_simulated = now;
    let is_active = match manager.active_view {
        Some(v) => v.contains(&key),
        None => false,
    };
    let ghost stored = chunk_data;
    if is_active {
        grid.load_chunk(key, chunk_data.cells.as_slice());
        insert_active(&mut store.active_chunks, key, chunk_data);
        proof {
            assert forall|k: ChunkKey| #[trigger] store.is_pending(k) implies !store.holds(k) by {
                assert(before.is_pending(k));
            }
            assert forall|i: int| 0 <= i < store.active_chunks@.len() implies (#[trigger] store.active_chunks@[i]).1.cells@.len()
                == CHUNK_CELL_COUNT && store.active_chunks@[i].0.in_range() by {
                if store.active_chunks@[i] != (key, stored) {
                    let j = choose|j: int| 0 <= j < before.active_chunks@.len() && before.active_chunks@[j] == store.active_chunks@[i];
                }
            }
            let j = choose|j: int| 0 <= j < store.active_chunks@.len() && #[trigger] store.active_chunks@[j].0 == key;
            assert(store.active_chunks@[j] == (key, stored));
        }
    } else {
        let ghost mid = cache_entries(store.cached_chunks);
        let evicted = cache_push(&mut store.cached_chunks, key.cache_key(), chunk_data);
        proof {
            lemma_push_effect(
                mid,
                cache_entries(store.cached_chunks),
                cache_capacity(store.cached_chunks),
                key.cache_key_spec(),
                stored,
                evicted,
            );
            lemma_cache_key_injective();
            assert(!before.is_active(key));
            assert forall|k: ChunkKey| #[trigger] store.is_pending(k) implies !store.holds(k) by {
                assert(before.is_pending(k));
            }
            assert forall|i: int| 0 <= i < cache_entries(store.cached_chunks).len() implies (#[trigger] cache_entries(
                store.cached_chunks,
            )[i]).1.cells@.len() == CHUNK_CELL_COUNT && ChunkKey::from_cache_key_spec(
                cache_entries(store.cached_chunks)[i].0,
            ).in_range() by {
                if cache_entries(store.cached_chunks)[i] != (key.cache_key_spec(), stored) {
                    let j = choose|j: int| 0 <= j < mid.len() && mid[j] == cache_entries(store.cached_chunks)[i];
                }
            }
        }
        match evicted {
            None => {},
            Some((ek, ed)) => {
                unloads.push(ChunkUnloadEvent { key: ChunkKey::from_cache_key(ek), data: ed });
                proof {
                    assert(unloads@[0].key == ChunkKey::from_cache_key_spec(ek));
                    let j = choose|j: int| 0 <= j < mid.len() && mid[j] == (ek, ed);
                    assert(before.is_cached(ChunkKey::from_cache_key_spec(ek)));
                }
            },
        }
        proof {
            assert forall|k: ChunkKey| #[trigger] before.holds(k) implies store.holds(k) || unloaded(unloads@, k) by {
                if !store.holds(k) {
                    assert(before.is_cached(k));
                    assert(unloads@[0].key == k);
                }
            }
        }
    }
    proof {
        match manager.active_view {
            Some(v) => {
                assert forall|k: ChunkKey| #[trigger] store.is_active(k) implies v.contains_spec(k) by {
                    if k != key {
                        assert(before.is_active(k));
                    }
                }
                assert forall|k: ChunkKey| #[trigger] v.contains_spec(k) implies store.is_active(k) || store.is_pending(k) by {
                    if k != key {
                        assert(before.is_active(k) || before.is_pending(k));
                        if before.is_pending(k) {
                            assert(store.pending_requests@.contains(k));
                        }
                    }
                }
            },
            None => {},
        }
    }
    unloads
}

/// Copies back from the grid the cells of every active chunk that `keys` lists, stamping it
/// with `now`.
fn backup_active(store: &mut WorldStore, grid: &ActiveWorldGrid, keys: &Vec<ChunkKey>, now: u64)
    requires
        old(store).wf(),
        grid.wf(),
    ensures
        final(store).wf(),
        final(store).pending_requests@ == old(store).pending_requests@,
        final(store).cached_chunks == old(store).cached_chunks,
        final(store).active_chunks@.len() == old(store).active_chunks@.len(),
        forall|i: int| 0 <= i < final(store).active_chunks@.len() ==> (#[trigger] final(store).active_chunks@[i]).0
            == old(store).active_chunks@[i].0,
        forall|i: int|
            0 <= i < final(store).active_chunks@.len() && keys@.contains(final(store).active_chunks@[i].0) ==> ({
                let (k, d) = #[trigger] final(store).active_chunks@[i];
                &&& d.cells@ == grid.chunk_of(grid.cells@, k.key.x * 64, k.key.y * 64)
                &&& d.last_simulated == now
                &&& d.theme == old(store).active_chunks@[i].1.theme
            }),
        forall|i: int|
            0 <= i < final(store).active_chunks@.len() && !keys@.contains(final(store).active_chunks@[i].0)
                ==> #[trigger] final(store).active_chunks@[i] == old(store).active_chunks@[i],
{
    let mut j: usize = 0;
    while j < keys.len()
        invariant
            j <= keys@.len(),
            grid.wf(),
            store.wf(),
            store.pending_requests@ == old(store).pending_requests@,
            store.cached_chunks == old(store).cached_chunks,
            store.active_chunks@.len() == old(store).active_chunks@.len(),
            forall|i: int| 0 <= i < store.active_chunks@.len() ==> (#[trigger] store.active_chunks@[i]).0
                == old(store).active_chunks@[i].0,
            forall|i: int|
                0 <= i < store.active_chunks@.len() && keys@.subrange(0, j as int).contains(store.active_chunks@[i].0) ==> ({
                    let (k, d) = #[trigger] store.active_chunks@[i];
                    &&& d.cells@ == grid.chunk_of(grid.cells@, k.key.x * 64, k.key.y * 64)
                    &&& d.last_simulated == now
                    &&& d.theme == old(store).active_chunks@[i].1.theme
                }),
            forall|i: int|
                0 <= i < store.active_chunks@.len() && !keys@.subrange(0, j as int).contains(store.active_chunks@[i].0)
                    ==> #[trigger] store.active_chunks@[i] == old(store).active_chunks@[i],
        decreases keys@.len() - j,
    {
        let key = keys[j];
        let ghost before = *store;
        match find_active(&store.active_chunks, &key) {
            Some(idx) => {
                let (k, mut data) = store.active_chunks.remove(idx);
                proof {
                    assert(before.active_chunks@[idx as int].0.in_range());
                    assert(before.active_chunks@[idx as int] == (k, data));
                }
                if data.cells.len() != CHUNK_CELL_COUNT {
                    data.cells.resize(CHUNK_CELL_COUNT, WorldCell::default());
                }
                grid.extract_chunk_into(key, data.cells.as_mut_slice());
                data.last_simulated = now;
                store.active_chunks.insert(idx, (k, data));
                proof {
                    assert(store.active_chunks@ =~= before.active_chunks@.update(idx as int, (k, data)));
                    assert forall|a: int, b: int| 0 <= a < b < store.active_chunks@.len() implies #[trigger] store.active_chunks@[a].0
                        != #[trigger] store.active_chunks@[b].0 by {
                        assert(before.active_chunks@[a].0 != before.active_chunks@[b].0);
                    }
                    assert forall|kk: ChunkKey| #[trigger] store.is_active(kk) == before.is_active(kk) by {
                        if store.is_active(kk) {
                            let a = choose|a: int| 0 <= a < store.active_chunks@.len() && #[trigger] store.active_chunks@[a].0 == kk;
                            assert(before.active_chunks@[a].0 == kk);
                        }
                        if before.is_active(kk) {
                            let a = choose|a: int| 0 <= a < before.active_chunks@.len() && #[trigger] before.active_chunks@[a].0 == kk;
                            assert(store.active_chunks@[a].0 == kk);
                        }
                    }
                    assert forall|kk: ChunkKey| #[trigger] store.is_pending(kk) implies !store.holds(kk) by {
                        assert(before.is_pending(kk));
                    }
                }
            },
            None => {},
        }
        proof {
            assert forall|i: int|
                0 <= i < store.active_chunks@.len() && keys@.subrange(0, j + 1).contains(store.active_chunks@[i].0) implies ({
                    let (k, d) = #[trigger] store.active_chunks@[i];
                    &&& d.cells@ == grid.chunk_of(grid.cells@, k.key.x * 64, k.key.y * 64)
                    &&& d.last_simulated == now
                    &&& d.theme == old(store).active_chunks@[i].1.theme
                }) by {
                if store.active_chunks@[i].0 != key {
                    let a = choose|a: int| 0 <= a < j + 1 && #[trigger] keys@.subrange(0, j + 1)[a] == store.active_chunks@[i].0;
                    assert(a != j);
                    assert(keys@.subrange(0, j as int)[a] == store.active_chunks@[i].0);
                    assert(store.active_chunks@[i] == before.active_chunks@[i]);
                } else {
                    assert(before.active_chunks@[i].0 == key);
                }
            }
            assert forall|i: int|
                0 <= i < store.active_chunks@.len() && !keys@.subrange(0, j + 1).contains(store.active_chunks@[i].0)
                    implies #[trigger] store.active_chunks@[i] == old(store).active_chunks@[i] by {
                assert(keys@.subrange(0, j + 1)[j as int] == key);
                if keys@.subrange(0, j as int).contains(store.active_chunks@[i].0) {
                    let a = choose|a: int| 0 <= a < j && #[trigger] keys@.subrange(0, j as int)[a] == store.active_chunks@[i].0;
                    assert(keys@.subrange(0, j + 1)[a] == store.active_chunks@[i].0);
                }
                assert(store.active_chunks@[i] == before.active_chunks@[i]);
            }
        }
        j = j + 1;
    }
    proof {
        assert(keys@.subrange(0, keys@.len() as int) == keys@);
    }
}

/// Fills a freshly resized grid with every chunk of `new_view`, in the order `keys` lists them:
/// active chunks are copied in again, cached ones come out of the cache, the rest are asked for.
fn restore_inside(
    store: &mut WorldStore,
    grid: &mut ActiveWorldGrid,
    keys: &Vec<ChunkKey>,
    new_view: ChunkView,
    requests: &mut Vec<ChunkLoadRequest>,
)
    requires
        old(store).wf(),
        old(grid).wf(),
        old(requests)@.len() == 0,
        forall|k: ChunkKey| keys@.contains(k) <==> new_view.contains_spec(k),
        forall|k: ChunkKey| #[trigger] new_view.contains_spec(k) ==> k.in_range(),
        forall|k: ChunkKey| #[trigger] old(store).is_active(k) ==> new_view.contains_spec(k),
        forall|i: int, j: int| 0 <= i < j < keys@.len() ==> crate::chunk::key_precedes(keys@[i], keys@[j]),
    ensures
        final(store).wf(),
        final(grid).wf(),
        final(grid).width == old(grid).width,
        final(grid).height == old(grid).height,
        final(grid).window_origin == old(grid).window_origin,
        final(grid).buffer_head == old(grid).buffer_head,
        forall|k: ChunkKey| #[trigger] final(store).is_active(k) ==> new_view.contains_spec(k),
        forall|k: ChunkKey| #[trigger] new_view.contains_spec(k) ==> final(store).is_active(k) || final(store).is_pending(k),
        forall|k: ChunkKey| #[trigger] old(store).holds(k) ==> final(store).holds(k),
        forall|k: ChunkKey| #[trigger] final(store).holds(k) ==> old(store).holds(k),
        final(store).pending_requests@ == old(store).pending_requests@ + requested_keys(final(requests)@),
        forall|i: int| 0 <= i < final(requests)@.len() ==> new_view.contains_spec(#[trigger] final(requests)@[i].key),
        forall|k: ChunkKey, d: ChunkData| #[trigger] keeps(*final(store), k, d) <==> keeps(*old(store), k, d),
        covers_view(*old(grid), new_view) ==> forall|k: ChunkKey| #[trigger] final(store).is_active(k) ==> shows(
            *final(grid),
            k,
            active_copy(*final(store), k),
        ),
{
    let ghost covered = covers_view(*old(grid), new_view);
    let mut j: usize = 0;
    while j < keys.len()
        invariant
            j <= keys@.len(),
            store.wf(),
            grid.wf(),
            grid.width == old(grid).width,
            grid.height == old(grid).height,
            grid.window_origin == old(grid).window_origin,
            forall|k: ChunkKey| keys@.contains(k) <==> new_view.contains_spec(k),
            forall|k: ChunkKey| #[trigger] new_view.contains_spec(k) ==> k.in_range(),
            forall|k: ChunkKey| #[trigger] store.is_active(k) ==> new_view.contains_spec(k),
            forall|k: ChunkKey|
                #[trigger] keys@.subrange(0, j as int).contains(k) ==> store.is_active(k) || store.is_pending(k),
            forall|k: ChunkKey| #[trigger] old(store).holds(k) ==> store.holds(k),
            forall|k: ChunkKey| #[trigger] store.holds(k) ==> old(store).holds(k),
            store.pending_requests@ == old(store).pending_requests@ + requested_keys(requests@),
            forall|i: int| 0 <= i < requests@.len() ==> new_view.contains_spec(#[trigger] requests@[i].key),
            forall|k: ChunkKey, d: ChunkData| #[trigger] keeps(*store, k, d) <==> keeps(*old(store), k, d),
            forall|a: int, b: int| 0 <= a < b < keys@.len() ==> crate::chunk::key_precedes(keys@[a], keys@[b]),
            grid.buffer_head == old(grid).buffer_head,
            covered == covers_view(*old(grid), new_view),
            covered ==> covers_view(*grid, new_view),
            covered ==> forall|k: ChunkKey|
                #![trigger store.is_active(k)]
                store.is_active(k) && keys@.subrange(0, j as int).contains(k) ==> shows(*grid, k, active_copy(*store, k)),
        decreases keys@.len() - j,
    {
        let key = keys[j];
        let ghost before = *store;
        let ghost grid_before = *grid;
        let ghost prior = requests@;
        proof {
            assert(keys@.contains(key));
            assert(new_view.contains_spec(key));
            assert(!keys@.subrange(0, j as int).contains(key)) by {
                if keys@.subrange(0, j as int).contains(key) {
                    let a = choose|a: int| 0 <= a < j && keys@.subrange(0, j as int)[a] == key;
                    assert(crate::chunk::key_precedes(keys@[a], keys@[j as int]));
                }
            }
        }
        match find_active(&store.active_chunks, &key) {
            Some(i) => {
                proof {
                    assert(store.active_chunks@[i as int].1.cells@.len() == CHUNK_CELL_COUNT);
                }
                grid.load_chunk(key, store.active_chunks[i].1.cells.as_slice());
                proof {
                    if covered {
                        let data = before.active_chunks@[i as int].1;
                        assert forall|k: ChunkKey|
                            #![trigger store.is_active(k)]
                            store.is_active(k) && keys@.subrange(0, j + 1).contains(k) implies shows(
                                *grid,
                                k,
                                active_copy(*store, k),
                            ) by {
                            lemma_chunk_of_same_geometry(*grid, grid_before, grid.cells@, k.key.x * 64, k.key.y * 64);
                            if k == key {
                                grid_before.law_chunk_round_trip(
                                    grid_before.cells@,
                                    key.key.x * 64,
                                    key.key.y * 64,
                                    data.cells@,
                                );
                                lemma_active_copy(*store, key, data);
                            } else {
                                let a = choose|a: int| 0 <= a < j + 1 && #[trigger] keys@.subrange(0, j + 1)[a] == k;
                                assert(keys@.subrange(0, j as int)[a] == k);
                                assert(new_view.contains_spec(k));
                                assert(k.key.x != key.key.x || k.key.y != key.key.y);
                                lemma_load_spares(grid_before, grid_before.cells@, key, data.cells@, k);
                            }
                        }
                    }
                }
            },
            None => {
                promote_chunk(store, grid, key, requests);
                proof {
                    if requests@ != prior {
                        lemma_requested_push(prior, ChunkLoadRequest { key });
                    }
                    if covered {
                        lemma_promote_shows(before, *store, grid_before, *grid, key, new_view);
                        assert forall|k: ChunkKey|
                            #![trigger store.is_active(k)]
                            store.is_active(k) && keys@.subrange(0, j + 1).contains(k) implies shows(
                                *grid,
                                k,
                                active_copy(*store, k),
                            ) by {
                            if k != key {
                                let a = choose|a: int| 0 <= a < j + 1 && #[trigger] keys@.subrange(0, j + 1)[a] == k;
                                assert(keys@.subrange(0, j as int)[a] == k);
                                assert(before.is_active(k));
                            }
                        }
                    }
                }
            },
        }
        proof {
            assert forall|k: ChunkKey| #[trigger] store.is_active(k) implies new_view.contains_spec(k) by {
                if k != key {
                    assert(before.is_active(k));
                }
            }
            assert forall|k: ChunkKey| #[trigger] keys@.subrange(0, j + 1).contains(k) implies store.is_active(k)
                || store.is_pending(k) by {
                if k != key {
                    let a = choose|a: int| 0 <= a < j + 1 && #[trigger] keys@.subrange(0, j + 1)[a] == k;
                    assert(a != j);
                    assert(keys@.subrange(0, j as int)[a] == k);
                    assert(keys@.subrange(0, j as int).contains(k));
                    assert(before.is_active(k) || before.is_pending(k));
                    if before.is_pending(k) {
                        let b = choose|b: int| 0 <= b < before.pending_requests@.len() && before.pending_requests@[b] == k;
                        assert(store.pending_requests@[b] == k);
                    }
                }
            }
            assert forall|i: int| 0 <= i < requests@.len() implies new_view.contains_spec(#[trigger] requests@[i].key) by {
                if i < prior.len() {
                    assert(requests@[i] == prior[i]);
                }
            }
        }
        j = j + 1;
    }
    proof {
        assert(keys@.subrange(0, keys@.len() as int) == keys@);
        assert forall|k: ChunkKey| #[trigger] new_view.contains_spec(k) implies store.is_active(k) || store.is_pending(k) by {
            assert(keys@.contains(k));
        }
        if covered {
            assert forall|k: ChunkKey| #[trigger] store.is_active(k) implies shows(*grid, k, active_copy(*store, k)) by {
                assert(keys@.contains(k));
            }
        }
    }
}

/// Radii whose window around `center` stays among chunks whose cells have `i32` positions and
/// whose grid has fewer than `i32::MAX` cells.
pub open spec fn window_fits(center: ChunkKey, radius_x: int, radius_y: int) -> bool {
    &&& CHUNK_COORD_MIN <= center.key.x - radius_x
    &&& center.key.x + radius_x <= CHUNK_COORD_MAX
    &&& CHUNK_COORD_MIN <= center.key.y - radius_y
    &&& center.key.y + radius_y <= CHUNK_COORD_MAX
    &&& (2 * radius_x + 1) * 64 * ((2 * radius_y + 1) * 64) <= i32::MAX
}

/// Resizes the active window to the radii of `event`, around `center`, at time `now`: every
/// active chunk is first copied back from the grid; those outside the new window go to the
/// cache (what the cache gives up is to be written out); the grid is rebuilt at the new size
/// and refilled from the active chunks, the cache, or requests. The preload area is dropped,
/// so the next step of chunk management preloads anew.
pub fn handle_simulation_resize(
    center: ChunkKey,
    now: u64,
    event: &ResizeSimulationEvent,
    manager: &mut ChunkManager,
    grid: &mut ActiveWorldGrid,
    store: &mut WorldStore,
) -> (traffic: ChunkTraffic)
    requires
        old(store).wf(),
        old(grid).wf(),
        old(manager).tracks(old(store)),
        window_fits(center, event.new_active_radius_x as int, event.new_active_radius_y as int),
    ensures
        final(store).wf(),
        final(grid).wf(),
        final(manager).tracks(final(store)),
        final(manager).active_view == Some(
            ChunkView::from_rect_xy_spec(center, event.new_active_radius_x as int, event.new_active_radius_y as int),
        ),
        final(manager).preload_view is None,
        final(manager).active_radius_x == event.new_active_radius_x,
        final(manager).active_radius_y == event.new_active_radius_y,
        final(manager).preload_ext_radius == old(manager).preload_ext_radius,
        final(manager).preload_trigger == old(manager).preload_trigger,
        final(grid).width == (2 * event.new_active_radius_x + 1) * 64,
        final(grid).height == (2 * event.new_active_radius_y + 1) * 64,
        final(grid).window_origin.x == (center.key.x - event.new_active_radius_x) * 64,
        final(grid).window_origin.y == (center.key.y - event.new_active_radius_y) * 64,
        final(grid).buffer_head == (IVec2 { x: 0, y: 0 }),
        forall|k: ChunkKey| #[trigger] old(store).holds(k) ==> final(store).holds(k) || unloaded(traffic.unloads@, k),
        forall|i: int| 0 <= i < traffic.unloads@.len() ==> old(store).holds(#[trigger] traffic.unloads@[i].key),
        final(store).pending_requests@ == old(store).pending_requests@ + requested_keys(traffic.requests@),
        forall|i: int|
            0 <= i < traffic.requests@.len() ==> in_view(final(manager).active_view, #[trigger] traffic.requests@[i].key),
        forall|k: ChunkKey, d: ChunkData| #[trigger] keeps(*final(store), k, d) ==> cache_entries(old(store).cached_chunks).contains(
            (k.cache_key_spec(), d),
        ) || (old(store).is_active(k) && copied_back(*old(grid), k, now, active_copy(*old(store), k), d)),
        forall|i: int| 0 <= i < traffic.unloads@.len() ==> cache_entries(old(store).cached_chunks).contains(
            ((#[trigger] traffic.unloads@[i]).key.cache_key_spec(), traffic.unloads@[i].data),
        ) || (old(store).is_active(traffic.unloads@[i].key) && copied_back(
            *old(grid),
            traffic.unloads@[i].key,
            now,
            active_copy(*old(store), traffic.unloads@[i].key),
            traffic.unloads@[i].data,
        )),
        forall|k: ChunkKey, d: ChunkData| #[trigger] cache_entries(old(store).cached_chunks).contains((k.cache_key_spec(), d))
            ==> keeps(*final(store), k, d) || unloads_copy(traffic.unloads@, k, d),
        forall|k: ChunkKey| #[trigger] old(store).is_active(k) ==> exists|d: ChunkData| #[trigger] copied_back(
            *old(grid),
            k,
            now,
            active_copy(*old(store), k),
            d,
        ) && (keeps(*final(store), k, d) || unloads_copy(traffic.unloads@, k, d)),
        forall|k: ChunkKey| #[trigger] final(store).is_active(k) ==> shows(*final(grid), k, active_copy(*final(store), k)),
{
    let mut unloads: Vec<ChunkUnloadEvent> = Vec::new();
    let mut requests: Vec<ChunkLoadRequest> = Vec::new();
    let rx = event.new_active_radius_x;
    let ry = event.new_active_radius_y;
    let new_active_view = ChunkView::from_rect_xy(center, rx as i32, ry as i32);
    let ghost store0 = *store;
    match manager.active_view {
        Some(old_active) => {
            let old_keys = old_active.keys();
            backup_active(store, grid, &old_keys, now);
            let ghost store1 = *store;
            proof {
                assert forall|k: ChunkKey| #[trigger] store1.is_active(k) == store0.is_active(k) by {
                    if store1.is_active(k) {
                        let a = choose|a: int| 0 <= a < store1.active_chunks@.len() && #[trigger] store1.active_chunks@[a].0 == k;
                        assert(store0.active_chunks@[a].0 == k);
                    }
                    if store0.is_active(k) {
                        let a = choose|a: int| 0 <= a < store0.active_chunks@.len() && #[trigger] store0.active_chunks@[a].0 == k;
                        assert(store1.active_chunks@[a].0 == k);
                    }
                }
            }
            proof {
                assert forall|k: ChunkKey| #[trigger] store1.is_active(k) implies copied_back(
                    *grid,
                    k,
                    now,
                    active_copy(store0, k),
                    active_copy(store1, k),
                ) by {
                    let a = index_of_key(store1.active_chunks@, k);
                    assert(store1.active_chunks@[a].0 == k);
                    assert(store0.active_chunks@[a].0 == k);
                    lemma_index_of_key(store0.active_chunks@, a);
                    assert(store0.is_active(k));
                    assert(old_active.contains_spec(k));
                    assert(old_keys@.contains(k));
                }
                assert forall|k: ChunkKey, d: ChunkData| #[trigger] store1.active_chunks@.contains((k, d)) implies d == active_copy(
                    store1,
                    k,
                ) by {
                    lemma_active_copy(store1, k, d);
                }
            }
            evict_outside(store, grid, &old_keys, new_active_view, now, &mut unloads);
            proof {
                assert forall|k: ChunkKey| #[trigger] store.is_active(k) implies new_active_view.contains_spec(k) by {
                    assert(store1.is_active(k));
                    assert(old_active.contains_spec(k));
                }
                assert forall|k: ChunkKey, d: ChunkData| #[trigger] keeps(*store, k, d) implies cache_entries(store0.cached_chunks).contains(
                    (k.cache_key_spec(), d),
                ) || (store0.is_active(k) && copied_back(*grid, k, now, active_copy(store0, k), d)) by {
                    assert(evicted_copy(store1, *grid, old_keys@, new_active_view, now, k, d));
                    if store1.active_chunks@.contains((k, d)) {
                        assert(store1.is_active(k));
                    } else if leaving(store1, old_keys@, new_active_view, k) {
                        assert(store1.is_active(k));
                    }
                }
                assert forall|i: int| 0 <= i < unloads@.len() implies cache_entries(store0.cached_chunks).contains(
                    ((#[trigger] unloads@[i]).key.cache_key_spec(), unloads@[i].data),
                ) || (store0.is_active(unloads@[i].key) && copied_back(
                    *grid,
                    unloads@[i].key,
                    now,
                    active_copy(store0, unloads@[i].key),
                    unloads@[i].data,
                )) by {
                    let k = unloads@[i].key;
                    let d = unloads@[i].data;
                    assert(evicted_copy(store1, *grid, old_keys@, new_active_view, now, k, d));
                    if store1.active_chunks@.contains((k, d)) {
                        assert(store1.is_active(k));
                    } else if leaving(store1, old_keys@, new_active_view, k) {
                        assert(store1.is_active(k));
                    }
                }
                assert forall|k: ChunkKey, d: ChunkData| #[trigger] cache_entries(store0.cached_chunks).contains((k.cache_key_spec(), d))
                    implies keeps(*store, k, d) || unloads_copy(unloads@, k, d) by {
                    assert(cache_entries(store1.cached_chunks).contains((k.cache_key_spec(), d)));
                }
                assert forall|k: ChunkKey| #[trigger] store0.is_active(k) implies exists|d: ChunkData| #[trigger] copied_back(
                    *grid,
                    k,
                    now,
                    active_copy(store0, k),
                    d,
                ) && (keeps(*store, k, d) || unloads_copy(unloads@, k, d)) by {
                    assert(store1.is_active(k));
                    let d1 = active_copy(store1, k);
                    let a = index_of_key(store1.active_chunks@, k);
                    assert(store1.active_chunks@[a].0 == k);
                    assert(store1.active_chunks@.contains((k, d1)));
                    assert(copied_back(*grid, k, now, active_copy(store0, k), d1));
                    if leaving(store1, old_keys@, new_active_view, k) {
                        let d = choose|d: ChunkData| #[trigger] copied_back(*grid, k, now, active_copy(store1, k), d) && (keeps(
                            *store,
                            k,
                            d,
                        ) || unloads_copy(unloads@, k, d));
                        assert(copied_back(*grid, k, now, active_copy(store0, k), d));
                    } else {
                        assert(keeps(store1, k, d1));
                        assert(keeps(*store, k, d1) || unloads_copy(unloads@, k, d1));
                    }
                }
                assert forall|k: ChunkKey| #[trigger] store0.holds(k) implies store.holds(k) || unloaded(unloads@, k) by {
                    assert(store1.holds(k));
                }
                assert forall|i: int| 0 <= i < unloads@.len() implies store0.holds(#[trigger] unloads@[i].key) by {
                    assert(store1.holds(unloads@[i].key));
                }
            }
        },
        None => {
            proof {
                assert forall|k: ChunkKey| !#[trigger] store0.is_active(k) by {
                    if store0.is_active(k) {
                        let j = index_of_key(store0.active_chunks@, k);
                    }
                }
            }
        },
    }
    let ghost store2 = *store;
    proof {
        assert forall|k: ChunkKey| #[trigger] new_active_view.contains_spec(k) implies k.in_range() by {}
        assert(CHUNK_SIZE as i32 == 64);
        assert((2 * rx + 1) * 64 * ((2 * ry + 1) * 64) <= i32::MAX);
        assert(0 <= (2 * rx + 1) * 64 <= i32::MAX) by (nonlinear_arith)
            requires
                (2 * rx + 1) * 64 * ((2 * ry + 1) * 64) <= i32::MAX,
                rx >= 0,
                ry >= 0,
        ;
        assert(0 <= (2 * ry + 1) * 64 <= i32::MAX) by (nonlinear_arith)
            requires
                (2 * rx + 1) * 64 * ((2 * ry + 1) * 64) <= i32::MAX,
                rx >= 0,
                ry >= 0,
        ;
    }
    let span_chunks_x = (rx * 2 + 1) as i32;
    let span_chunks_y = (ry * 2 + 1) as i32;
    let new_width = span_chunks_x * (CHUNK_SIZE as i32);
    let new_height = span_chunks_y * (CHUNK_SIZE as i32);
    let new_origin = IVec2 {
        x: new_active_view.min.key.x * (CHUNK_SIZE as i32),
        y: new_active_view.min.key.y * (CHUNK_SIZE as i32),
    };
    grid.resize_in_place(new_width, new_height, new_origin);
    proof {
        assert forall|k: ChunkKey| #[trigger] new_active_view.contains_spec(k) implies grid.covers_chunk_xy(
            k.key.x * 64,
            k.key.y * 64,
        ) by {
            assert(k.key.x * 64 - new_active_view.min.key.x * 64 == (k.key.x - new_active_view.min.key.x) * 64);
            assert(k.key.y * 64 - new_active_view.min.key.y * 64 == (k.key.y - new_active_view.min.key.y) * 64);
        }
        assert(covers_view(*grid, new_active_view));
    }
    let new_keys = new_active_view.keys();
    restore_inside(store, grid, &new_keys, new_active_view, &mut requests);
    manager.active_radius_x = rx;
    manager.active_radius_y = ry;
    manager.active_view = Some(new_active_view);
    manager.preload_view = None;
    proof {
        assert forall|k: ChunkKey, d: ChunkData| #![trigger keeps(*store, k, d)] keeps(*store, k, d) == keeps(store2, k, d) by {}
    }
    ChunkTraffic { unloads, requests }
}

} // verus!
