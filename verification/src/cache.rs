use vstd::prelude::*;
use std::num::NonZeroUsize;
use crate::stream::ChunkData;

verus! {

/// The least-recently-used cache of the `lru` crate.
#[verifier::external_type_specification]
#[verifier::external_body]
#[verifier::reject_recursive_types(K)]
#[verifier::reject_recursive_types(V)]
#[verifier::reject_recursive_types(S)]
pub struct ExLruCache<K, V, S>(lru::LruCache<K, V, S>);

/// The hasher builder of the `rustc-hash` crate.
#[verifier::external_type_specification]
#[verifier::external_body]
pub struct ExFxBuildHasher(rustc_hash::FxBuildHasher);

/// Chunk coordinates as the cache hashes them.
pub type CacheKey = (i32, i32, i32);

/// Chunks that left the active window, kept in memory until they are needed again or evicted.
pub type ChunkCache = lru::LruCache<CacheKey, ChunkData, rustc_hash::FxBuildHasher>;

/// The entries of `cache`, from the least recently used to the most recently used.
pub uninterp spec fn cache_entries(cache: ChunkCache) -> Seq<(CacheKey, ChunkData)>;

/// The number of entries `cache` was made to hold.
pub uninterp spec fn cache_capacity(cache: ChunkCache) -> nat;

/// No key occurs twice among `s`.
pub open spec fn keys_distinct<K, V>(s: Seq<(K, V)>) -> bool {
    forall|i: int, j: int| 0 <= i < j < s.len() ==> #[trigger] s[i].0 != #[trigger] s[j].0
}

/// Some entry of `s` has key `k`.
pub open spec fn has_key<K, V>(s: Seq<(K, V)>, k: K) -> bool {
    exists|i: int| 0 <= i < s.len() && #[trigger] s[i].0 == k
}

/// The position of an entry with key `k` in `s`, when there is one.
pub open spec fn index_of_key<K, V>(s: Seq<(K, V)>, k: K) -> int {
    choose|i: int| 0 <= i < s.len() && #[trigger] s[i].0 == k
}

/// With distinct keys, the entry with a key is found where it is.
pub proof fn lemma_index_of_key<K, V>(s: Seq<(K, V)>, i: int)
    requires
        keys_distinct(s),
        0 <= i < s.len(),
    ensures
        has_key(s, s[i].0),
        index_of_key(s, s[i].0) == i,
{
    assert(s[i].0 == s[i].0);
    let j = index_of_key(s, s[i].0);
    assert(0 <= j < s.len() && s[j].0 == s[i].0);
}

/// What every cache holds: distinct keys, and no more entries than it was made for.
pub open spec fn cache_wf(cache: ChunkCache) -> bool {
    &&& keys_distinct(cache_entries(cache))
    &&& cache_entries(cache).len() <= cache_capacity(cache)
    &&& cache_capacity(cache) > 0
}

/// Calls `LruCache::with_hasher` with `FxBuildHasher`: an empty cache that holds at most
/// `capacity` chunks.
#[verifier::external_body]
pub(crate) fn new_chunk_cache(capacity: usize) -> (cache: ChunkCache)
    requires
        capacity > 0,
    ensures
        cache_entries(cache) == Seq::<(CacheKey, ChunkData)>::empty(),
        cache_capacity(cache) == capacity,
{
    lru::LruCache::with_hasher(NonZeroUsize::new(capacity).unwrap(), rustc_hash::FxBuildHasher)
}

/// Calls `LruCache::push`. A key already present gets the new value, becomes the most recently
/// used, and its old pair comes back; otherwise a full cache gives up its least recently used
/// entry, which comes back; otherwise nothing comes back. The new pair is always the most
/// recently used entry.
#[verifier::external_body]
pub(crate) fn cache_push(cache: &mut ChunkCache, key: CacheKey, data: ChunkData) -> (r: Option<(CacheKey, ChunkData)>)
    requires
        cache_wf(*old(cache)),
    ensures
        cache_capacity(*final(cache)) == cache_capacity(*old(cache)),
        forall|i: int|
            0 <= i < cache_entries(*old(cache)).len() && #[trigger] cache_entries(*old(cache))[i].0 == key
                ==> r == Some((key, cache_entries(*old(cache))[i].1)) && cache_entries(*final(cache))
                == cache_entries(*old(cache)).remove(i).push((key, data)),
        !has_key(cache_entries(*old(cache)), key) && cache_entries(*old(cache)).len() == cache_capacity(
            *old(cache),
        ) ==> r == Some(cache_entries(*old(cache))[0]) && cache_entries(*final(cache)) == cache_entries(
            *old(cache),
        ).drop_first().push((key, data)),
        !has_key(cache_entries(*old(cache)), key) && cache_entries(*old(cache)).len() < cache_capacity(
            *old(cache),
        ) ==> r is None && cache_entries(*final(cache)) == cache_entries(*old(cache)).push((key, data)),
{
    cache.push(key, data)
}

/// Calls `LruCache::pop`: removes the entry with `key` and gives back its value, if there is one.
#[verifier::external_body]
pub(crate) fn cache_pop(cache: &mut ChunkCache, key: &CacheKey) -> (r: Option<ChunkData>)
    requires
        cache_wf(*old(cache)),
    ensures
        cache_capacity(*final(cache)) == cache_capacity(*old(cache)),
        forall|i: int|
            0 <= i < cache_entries(*old(cache)).len() && #[trigger] cache_entries(*old(cache))[i].0 == *key
                ==> r == Some(cache_entries(*old(cache))[i].1) && cache_entries(*final(cache)) == cache_entries(
                *old(cache),
            ).remove(i),
        !has_key(cache_entries(*old(cache)), *key) ==> r is None && cache_entries(*final(cache))
            == cache_entries(*old(cache)),
{
    cache.pop(key)
}

/// Calls `LruCache::contains`: whether an entry has `key`; the order of use is left alone.
#[verifier::external_body]
pub(crate) fn cache_contains(cache: &ChunkCache, key: &CacheKey) -> (r: bool)
    ensures
        r == has_key(cache_entries(*cache), *key),
{
    cache.contains(key)
}

/// Removing an entry keeps the keys distinct, and no key appears that was not there.
pub proof fn lemma_remove_keys<K, V>(s: Seq<(K, V)>, i: int)
    requires
        keys_distinct(s),
        0 <= i < s.len(),
    ensures
        keys_distinct(s.remove(i)),
        forall|k: K| has_key(s.remove(i), k) <==> has_key(s, k) && k != s[i].0,
{
    let t = s.remove(i);
    assert forall|k: K| has_key(t, k) <==> has_key(s, k) && k != s[i].0 by {
        if has_key(t, k) {
            let j = choose|j: int| 0 <= j < t.len() && #[trigger] t[j].0 == k;
            if j < i {
                assert(s[j].0 == k);
            } else {
                assert(s[j + 1].0 == k);
            }
        }
        if has_key(s, k) && k != s[i].0 {
            let j = choose|j: int| 0 <= j < s.len() && #[trigger] s[j].0 == k;
            if j < i {
                assert(t[j].0 == k);
            } else {
                assert(t[j - 1].0 == k);
            }
        }
    }
}

/// Appending an entry with a new key keeps the keys distinct.
pub proof fn lemma_push_keys<K, V>(s: Seq<(K, V)>, e: (K, V))
    requires
        keys_distinct(s),
        !has_key(s, e.0),
    ensures
        keys_distinct(s.push(e)),
        forall|k: K| has_key(s.push(e), k) <==> has_key(s, k) || k == e.0,
{
    let t = s.push(e);
    assert forall|i: int, j: int| 0 <= i < j < t.len() implies #[trigger] t[i].0 != #[trigger] t[j].0 by {
        if j == s.len() {
            assert(s[i].0 == t[i].0);
        }
    }
    assert forall|k: K| has_key(t, k) <==> has_key(s, k) || k == e.0 by {
        if has_key(t, k) {
            let j = choose|j: int| 0 <= j < t.len() && #[trigger] t[j].0 == k;
            if j < s.len() {
                assert(s[j].0 == k);
            }
        }
        if has_key(s, k) {
            let j = choose|j: int| 0 <= j < s.len() && #[trigger] s[j].0 == k;
            assert(t[j].0 == k);
        }
        if k == e.0 {
            assert(t[s.len() as int].0 == k);
        }
    }
}

/// What a push does to the entries, as the rest of the library needs it: the keys stay
/// distinct, the pushed pair is the most recently used entry, every entry was there before or
/// is the pushed pair, and a key that leaves (other than the pushed one) is the one handed back.
pub proof fn lemma_push_effect(
    mid: Seq<(CacheKey, ChunkData)>,
    after: Seq<(CacheKey, ChunkData)>,
    cap: nat,
    key: CacheKey,
    data: ChunkData,
    r: Option<(CacheKey, ChunkData)>,
)
    requires
        keys_distinct(mid),
        mid.len() <= cap,
        cap > 0,
        forall|i: int|
            0 <= i < mid.len() && #[trigger] mid[i].0 == key ==> r == Some((key, mid[i].1)) && after
                == mid.remove(i).push((key, data)),
        !has_key(mid, key) && mid.len() == cap ==> r == Some(mid[0]) && after == mid.drop_first().push(
            (key, data),
        ),
        !has_key(mid, key) && mid.len() < cap ==> r is None && after == mid.push((key, data)),
    ensures
        keys_distinct(after),
        after.len() <= cap,
        after.len() > 0,
        after.last() == (key, data),
        has_key(after, key),
        forall|k: CacheKey| #[trigger] has_key(after, k) ==> has_key(mid, k) || k == key,
        forall|k: CacheKey| #[trigger] has_key(mid, k) && k != key ==> has_key(after, k) || (r is Some && r.unwrap().0 == k),
        forall|i: int| 0 <= i < after.len() ==> #[trigger] after[i] == (key, data) || mid.contains(after[i]),
        r is Some ==> mid.contains(r->0),
        forall|e: (CacheKey, ChunkData)| #[trigger] mid.contains(e) ==> after.contains(e) || r == Some(e),
{
    let e = (key, data);
    if has_key(mid, key) {
        let i = choose|i: int| 0 <= i < mid.len() && #[trigger] mid[i].0 == key;
        lemma_remove_keys(mid, i);
        lemma_push_keys(mid.remove(i), e);
        let t = mid.remove(i);
        assert forall|j: int| 0 <= j < after.len() implies #[trigger] after[j] == e || mid.contains(after[j]) by {
            if j < t.len() {
                if j < i {
                    assert(after[j] == mid[j]);
                } else {
                    assert(after[j] == mid[j + 1]);
                }
            }
        }
        assert(mid.contains(mid[i]));
        assert forall|e: (CacheKey, ChunkData)| #[trigger] mid.contains(e) implies after.contains(e) || r == Some(e) by {
            let j = choose|j: int| 0 <= j < mid.len() && mid[j] == e;
            if j < i {
                assert(after[j] == e);
            } else if j > i {
                assert(after[j - 1] == e);
            }
        }
    } else if mid.len() == cap {
        assert(mid.drop_first() == mid.remove(0));
        lemma_remove_keys(mid, 0);
        lemma_push_keys(mid.remove(0), e);
        assert forall|j: int| 0 <= j < after.len() implies #[trigger] after[j] == e || mid.contains(after[j]) by {
            if j < after.len() - 1 {
                assert(after[j] == mid[j + 1]);
            }
        }
        assert(mid.contains(mid[0]));
        assert forall|e: (CacheKey, ChunkData)| #[trigger] mid.contains(e) implies after.contains(e) || r == Some(e) by {
            let j = choose|j: int| 0 <= j < mid.len() && mid[j] == e;
            if j > 0 {
                assert(after[j - 1] == e);
            }
        }
    } else {
        lemma_push_keys(mid, e);
        assert forall|j: int| 0 <= j < after.len() implies #[trigger] after[j] == e || mid.contains(after[j]) by {
            if j < mid.len() {
                assert(after[j] == mid[j]);
            }
        }
        assert forall|x: (CacheKey, ChunkData)| #[trigger] mid.contains(x) implies after.contains(x) || r == Some(x) by {
            let j = choose|j: int| 0 <= j < mid.len() && mid[j] == x;
            assert(after[j] == x);
        }
    }
    assert(after[after.len() - 1] == e);
    assert(has_key(after, key));
}

/// What a pop does to the entries: the entry with `key`, if any, leaves and its value comes
/// back; nothing else changes.
pub proof fn lemma_pop_effect(
    before: Seq<(CacheKey, ChunkData)>,
    after: Seq<(CacheKey, ChunkData)>,
    key: CacheKey,
    r: Option<ChunkData>,
)
    requires
        keys_distinct(before),
        forall|i: int|
            0 <= i < before.len() && #[trigger] before[i].0 == key ==> r == Some(before[i].1) && after
                == before.remove(i),
        !has_key(before, key) ==> r is None && after == before,
    ensures
        keys_distinct(after),
        after.len() <= before.len(),
        !has_key(after, key),
        r is Some <==> has_key(before, key),
        r is Some ==> before.contains((key, r->0)),
        forall|k: CacheKey| #[trigger] has_key(after, k) <==> has_key(before, k) && k != key,
        forall|i: int| 0 <= i < after.len() ==> before.contains(#[trigger] after[i]),
        forall|e: (CacheKey, ChunkData)| #[trigger] before.contains(e) ==> after.contains(e) || (e.0 == key && r == Some(e.1)),
{
    if has_key(before, key) {
        let i = choose|i: int| 0 <= i < before.len() && #[trigger] before[i].0 == key;
        lemma_remove_keys(before, i);
        assert forall|j: int| 0 <= j < after.len() implies before.contains(#[trigger] after[j]) by {
            if j < i {
                assert(after[j] == before[j]);
            } else {
                assert(after[j] == before[j + 1]);
            }
        }
        assert(before[i] == (key, r->0));
        assert forall|e: (CacheKey, ChunkData)| #[trigger] before.contains(e) implies after.contains(e) || (e.0 == key
            && r == Some(e.1)) by {
            let j = choose|j: int| 0 <= j < before.len() && before[j] == e;
            if j < i {
                assert(after[j] == e);
            } else if j > i {
                assert(after[j - 1] == e);
            } else {
                assert(e == before[i]);
            }
        }
    } else {
        assert forall|j: int| 0 <= j < after.len() implies before.contains(#[trigger] after[j]) by {
            assert(after[j] == before[j]);
        }
        assert forall|e: (CacheKey, ChunkData)| #[trigger] before.contains(e) implies after.contains(e) || (e.0 == key
            && r == Some(e.1)) by {
        }
    }
}

} // verus!
