use vstd::prelude::*;
use crate::cache::{has_key, index_of_key, keys_distinct, lemma_index_of_key, lemma_push_keys, lemma_remove_keys};
use crate::overworld::ChunkKey;

verus! {

/// Which overworld chunk each tracked entity is in, and which entities each chunk holds.
/// Entities are named by their 64-bit ids.
pub struct EntitySpatialIndex {
    entity_to_chunk: Vec<(u64, ChunkKey)>,
    chunk_to_entities: Vec<(ChunkKey, Vec<u64>)>,
}

impl Default for EntitySpatialIndex {
    fn default() -> (r: Self)
        ensures
            r.wf(),
            forall|e: u64| r.chunk_of(e) is None,
    {
        EntitySpatialIndex { entity_to_chunk: Vec::new(), chunk_to_entities: Vec::new() }
    }
}

/// The entity lists of `s` by chunk, as sequences.
pub open spec fn lists_view(s: Seq<(ChunkKey, Vec<u64>)>) -> Seq<(ChunkKey, Seq<u64>)> {
    s.map_values(|p: (ChunkKey, Vec<u64>)| (p.0, p.1@))
}

impl EntitySpatialIndex {
    pub closed spec fn entities(&self) -> Seq<(u64, ChunkKey)> {
        self.entity_to_chunk@
    }

    pub closed spec fn lists(&self) -> Seq<(ChunkKey, Seq<u64>)> {
        lists_view(self.chunk_to_entities@)
    }

    /// The chunk that entity `e` is in, if it is tracked.
    pub open spec fn chunk_of(&self, e: u64) -> Option<ChunkKey> {
        if has_key(self.entities(), e) {
            Some(self.entities()[index_of_key(self.entities(), e)].1)
        } else {
            None
        }
    }

    /// Entity `e` is on the list of chunk `c`.
    pub open spec fn listed(&self, c: ChunkKey, e: u64) -> bool {
        exists|i: int| 0 <= i < self.lists().len() && (#[trigger] self.lists()[i]).0 == c && self.lists()[i].1.contains(e)
    }

    /// Both directions agree: an entity is listed exactly under the chunk it maps to, once;
    /// no chunk keeps an empty list.
    pub open spec fn wf(&self) -> bool {
        &&& keys_distinct(self.entities())
        &&& keys_distinct(self.lists())
        &&& forall|i: int| 0 <= i < self.lists().len() ==> (#[trigger] self.lists()[i]).1.len() > 0 && self.lists()[i].1.no_duplicates()
        &&& forall|c: ChunkKey, e: u64| #[trigger] self.listed(c, e) <==> self.chunk_of(e) == Some(c)
    }

    /// How many entities chunk `c` lists.
    pub open spec fn count_in(&self, c: ChunkKey) -> nat {
        if has_key(self.lists(), c) {
            self.lists()[index_of_key(self.lists(), c)].1.len()
        } else {
            0
        }
    }
}

fn find_entity(ents: &Vec<(u64, ChunkKey)>, e: u64) -> (r: Option<usize>)
    ensures
        match r {
            Some(i) => i < ents@.len() && ents@[i as int].0 == e,
            None => !has_key(ents@, e),
        },
{
    let mut i: usize = 0;
    while i < ents.len()
        invariant
            i <= ents@.len(),
            forall|j: int| 0 <= j < i ==> (#[trigger] ents@[j]).0 != e,
        decreases ents@.len() - i,
    {
        if ents[i].0 == e {
            return Some(i);
        }
        i = i + 1;
    }
    None
}

fn find_chunk(chunks: &Vec<(ChunkKey, Vec<u64>)>, c: &ChunkKey) -> (r: Option<usize>)
    ensures
        match r {
            Some(i) => i < chunks@.len() && chunks@[i as int].0 == *c,
            None => !has_key(lists_view(chunks@), *c),
        },
{
    let mut i: usize = 0;
    while i < chunks.len()
        invariant
            i <= chunks@.len(),
            forall|j: int| 0 <= j < i ==> (#[trigger] chunks@[j]).0 != *c,
        decreases chunks@.len() - i,
    {
        if chunks[i].0 == *c {
            return Some(i);
        }
        i = i + 1;
    }
    proof {
        assert forall|j: int| 0 <= j < lists_view(chunks@).len() implies (#[trigger] lists_view(chunks@)[j]).0 != *c by {
            assert(lists_view(chunks@)[j].0 == chunks@[j].0);
        }
    }
    None
}

/// The entries of `list` other than `entity`, in order.
fn without(list: &Vec<u64>, entity: u64) -> (r: Vec<u64>)
    ensures
        forall|x: u64| r@.contains(x) <==> list@.contains(x) && x != entity,
        list@.no_duplicates() ==> r@.no_duplicates(),
{
    let mut kept: Vec<u64> = Vec::new();
    let mut i: usize = 0;
    while i < list.len()
        invariant
            i <= list@.len(),
            forall|x: u64| kept@.contains(x) <==> list@.subrange(0, i as int).contains(x) && x != entity,
            list@.no_duplicates() ==> kept@.no_duplicates(),
        decreases list@.len() - i,
    {
        let x = list[i];
        let ghost before = kept@;
        proof {
            assert forall|y: u64| list@.subrange(0, i + 1).contains(y) <==> list@.subrange(0, i as int).contains(y) || y == x by {
                if list@.subrange(0, i + 1).contains(y) {
                    let a = choose|a: int| 0 <= a < i + 1 && #[trigger] list@.subrange(0, i + 1)[a] == y;
                    if a < i {
                        assert(list@.subrange(0, i as int)[a] == y);
                    }
                }
                if list@.subrange(0, i as int).contains(y) {
                    let a = choose|a: int| 0 <= a < i && #[trigger] list@.subrange(0, i as int)[a] == y;
                    assert(list@.subrange(0, i + 1)[a] == y);
                }
                if y == x {
                    assert(list@.subrange(0, i + 1)[i as int] == y);
                }
            }
        }
        if x != entity {
            kept.push(x);
            proof {
                assert forall|y: u64| kept@.contains(y) <==> before.contains(y) || y == x by {
                    if kept@.contains(y) {
                        let a = choose|a: int| 0 <= a < kept@.len() && kept@[a] == y;
                        if a < before.len() {
                            assert(before[a] == y);
                        }
                    }
                    if before.contains(y) {
                        let a = choose|a: int| 0 <= a < before.len() && before[a] == y;
                        assert(kept@[a] == y);
                    }
                    if y == x {
                        assert(kept@[before.len() as int] == y);
                    }
                }
                if list@.no_duplicates() {
                    assert(!list@.subrange(0, i as int).contains(x)) by {
                        if list@.subrange(0, i as int).contains(x) {
                            let a = choose|a: int| 0 <= a < i && #[trigger] list@.subrange(0, i as int)[a] == x;
                            assert(list@[a] == list@[i as int]);
                        }
                    }
                    assert(!before.contains(x));
                    assert forall|a: int, b: int| 0 <= a < b < kept@.len() implies kept@[a] != kept@[b] by {
                        if b == before.len() {
                            assert(before.contains(kept@[a]));
                        } else {
                            assert(before[a] != before[b]);
                        }
                    }
                }
            }
        }
        proof {
            assert forall|y: u64| kept@.contains(y) <==> list@.subrange(0, i + 1).contains(y) && y != entity by {
                assert(list@.subrange(0, i + 1).contains(y) <==> list@.subrange(0, i as int).contains(y) || y == x);
                if x != entity {
                    assert(kept@.contains(y) <==> before.contains(y) || y == x);
                } else {
                    assert(kept@ == before);
                }
            }
        }
        i = i + 1;
    }
    proof {
        assert(list@.subrange(0, list@.len() as int) == list@);
    }
    kept
}

/// The value found under key `k`, for keys present.
pub open spec fn value_at<K, V>(s: Seq<(K, V)>, k: K) -> V {
    s[index_of_key(s, k)].1
}

/// Setting the entry of `entity` to `next`, in place or at the end, keeps the other entries'
/// lookups.
proof fn lemma_entity_moved(old_ents: Seq<(u64, ChunkKey)>, new_ents: Seq<(u64, ChunkKey)>, entity: u64, next: ChunkKey)
    requires
        keys_distinct(old_ents),
        ({
            ||| exists|i: int| 0 <= i < old_ents.len() && old_ents[i].0 == entity && new_ents == old_ents.update(i, (entity, next))
            ||| !has_key(old_ents, entity) && new_ents == old_ents.push((entity, next))
        }),
    ensures
        keys_distinct(new_ents),
        has_key(new_ents, entity),
        value_at(new_ents, entity) == next,
        forall|e: u64| e != entity ==> (#[trigger] has_key(new_ents, e) <==> has_key(old_ents, e)),
        forall|e: u64| e != entity && has_key(old_ents, e) ==> #[trigger] value_at(new_ents, e) == value_at(old_ents, e),
{
    if exists|i: int| 0 <= i < old_ents.len() && old_ents[i].0 == entity && new_ents == old_ents.update(i, (entity, next)) {
        let i = choose|i: int| 0 <= i < old_ents.len() && old_ents[i].0 == entity && new_ents == old_ents.update(i, (entity, next));
        assert forall|a: int, b: int| 0 <= a < b < new_ents.len() implies #[trigger] new_ents[a].0 != #[trigger] new_ents[b].0 by {
            assert(old_ents[a].0 != old_ents[b].0);
        }
        lemma_index_of_key(new_ents, i);
        assert forall|e: u64| e != entity implies (#[trigger] has_key(new_ents, e) <==> has_key(old_ents, e)) by {
            if has_key(new_ents, e) {
                let j = choose|j: int| 0 <= j < new_ents.len() && #[trigger] new_ents[j].0 == e;
                assert(old_ents[j].0 == e);
            }
            if has_key(old_ents, e) {
                let j = choose|j: int| 0 <= j < old_ents.len() && #[trigger] old_ents[j].0 == e;
                assert(new_ents[j].0 == e);
            }
        }
        assert forall|e: u64| e != entity && has_key(old_ents, e) implies #[trigger] value_at(new_ents, e) == value_at(old_ents, e) by {
            let j = index_of_key(old_ents, e);
            lemma_index_of_key(old_ents, j);
            assert(new_ents[j] == old_ents[j]);
            lemma_index_of_key(new_ents, j);
        }
    } else {
        lemma_push_keys(old_ents, (entity, next));
        lemma_index_of_key(new_ents, old_ents.len() as int);
        assert forall|e: u64| e != entity && has_key(old_ents, e) implies #[trigger] value_at(new_ents, e) == value_at(old_ents, e) by {
            let j = index_of_key(old_ents, e);
            lemma_index_of_key(old_ents, j);
            assert(new_ents[j] == old_ents[j]);
            lemma_index_of_key(new_ents, j);
        }
    }
}

impl EntitySpatialIndex {
    /// Takes `entity` off the list of chunk `key`; a list left empty goes away.
    fn remove_from_chunk(&mut self, entity: u64, key: ChunkKey)
        requires
            keys_distinct(old(self).lists()),
            forall|i: int| 0 <= i < old(self).lists().len() ==> (#[trigger] old(self).lists()[i]).1.len() > 0
                && old(self).lists()[i].1.no_duplicates(),
        ensures
            final(self).entities() == old(self).entities(),
            keys_distinct(final(self).lists()),
            forall|i: int| 0 <= i < final(self).lists().len() ==> (#[trigger] final(self).lists()[i]).1.len() > 0
                && final(self).lists()[i].1.no_duplicates(),
            forall|c: ChunkKey, e: u64| #[trigger] final(self).listed(c, e) <==> old(self).listed(c, e) && !(c == key && e == entity),
    {
        let ghost before = self.lists();
        match find_chunk(&self.chunk_to_entities, &key) {
            None => {
                proof {
                    assert forall|c: ChunkKey, e: u64| #[trigger] self.listed(c, e) implies !(c == key && e == entity) by {
                        if c == key {
                            let i = choose|i: int| 0 <= i < self.lists().len() && (#[trigger] self.lists()[i]).0 == c && self.lists()[i].1.contains(e);
                            assert(self.lists()[i].0 == key);
                        }
                    }
                }
            },
            Some(j) => {
                let ghost raw = self.chunk_to_entities@;
                let (k, list) = self.chunk_to_entities.remove(j);
                proof {
                    assert(lists_view(self.chunk_to_entities@) =~= before.remove(j as int));
                    assert(before[j as int] == (k, list@));
                    lemma_remove_keys(before, j as int);
                }
                let kept = without(&list, entity);
                if kept.len() > 0 {
                    let ghost mid = self.chunk_to_entities@;
                    self.chunk_to_entities.insert(j, (k, kept));
                    proof {
                        assert(lists_view(self.chunk_to_entities@) =~= before.update(j as int, (k, kept@)));
                    }
                }
                proof {
                    let after = self.lists();
                    if kept@.len() > 0 {
                        assert forall|a: int, b: int| 0 <= a < b < after.len() implies #[trigger] after[a].0 != #[trigger] after[b].0 by {
                            assert(before[a].0 != before[b].0);
                        }
                        assert forall|i: int| 0 <= i < after.len() implies (#[trigger] after[i]).1.len() > 0 && after[i].1.no_duplicates() by {
                            if i != j {
                                assert(after[i] == before[i]);
                            }
                        }
                        assert forall|c: ChunkKey, e: u64| #[trigger] self.listed(c, e) <==> (exists|i: int| 0 <= i < before.len() && (#[trigger] before[i]).0 == c && before[i].1.contains(e)) && !(c == key && e == entity) by {
                            if self.listed(c, e) {
                                let i = choose|i: int| 0 <= i < after.len() && (#[trigger] after[i]).0 == c && after[i].1.contains(e);
                                if i != j {
                                    assert(before[i] == after[i]);
                                    assert(before[i].0 != before[j as int].0);
                                    assert(c != key);
                                } else {
                                    assert(before[i].0 == c);
                                }
                            }
                            if (exists|i: int| 0 <= i < before.len() && (#[trigger] before[i]).0 == c && before[i].1.contains(e)) && !(c == key && e == entity) {
                                let i = choose|i: int| 0 <= i < before.len() && (#[trigger] before[i]).0 == c && before[i].1.contains(e);
                                assert(after[i].0 == c && after[i].1.contains(e));
                            }
                        }
                    } else {
                        assert forall|i: int| 0 <= i < after.len() implies (#[trigger] after[i]).1.len() > 0 && after[i].1.no_duplicates() by {
                            if i < j {
                                assert(after[i] == before[i]);
                            } else {
                                assert(after[i] == before[i + 1]);
                            }
                        }
                        assert forall|c: ChunkKey, e: u64| #[trigger] self.listed(c, e) <==> (exists|i: int| 0 <= i < before.len() && (#[trigger] before[i]).0 == c && before[i].1.contains(e)) && !(c == key && e == entity) by {
                            if self.listed(c, e) {
                                let i = choose|i: int| 0 <= i < after.len() && (#[trigger] after[i]).0 == c && after[i].1.contains(e);
                                let i2 = if i < j { i } else { i + 1 };
                                assert(before[i2] == after[i]);
                                assert(before[i2].0 != before[j as int].0);
                            }
                            if (exists|i: int| 0 <= i < before.len() && (#[trigger] before[i]).0 == c && before[i].1.contains(e)) && !(c == key && e == entity) {
                                let i = choose|i: int| 0 <= i < before.len() && (#[trigger] before[i]).0 == c && before[i].1.contains(e);
                                if i == j {
                                    assert(kept@.contains(e));
                                }
                                let i2 = if i < j { i } else { i - 1 };
                                assert(after[i2] == before[i]);
                            }
                        }
                    }
                }
            },
        }
    }
}

impl EntitySpatialIndex {
    /// Records that `entity` is in chunk `next_chunk`: if it was listed under another chunk it
    /// moves; if it is already there nothing changes.
    pub fn upsert(&mut self, entity: u64, next_chunk: ChunkKey)
        requires
            old(self).wf(),
        ensures
            final(self).wf(),
            final(self).chunk_of(entity) == Some(next_chunk),
            forall|e: u64| e != entity ==> #[trigger] final(self).chunk_of(e) == old(self).chunk_of(e),
            old(self).chunk_of(entity) == Some(next_chunk) ==> final(self).entities() == old(self).entities()
                && final(self).lists() == old(self).lists(),
    {
        let ghost start = *self;
        match find_entity(&self.entity_to_chunk, entity) {
            Some(i) => {
                let current = self.entity_to_chunk[i].1;
                proof {
                    lemma_index_of_key(start.entities(), i as int);
                }
                if current == next_chunk {
                    return;
                }
                self.remove_from_chunk(entity, current);
                let ghost removed = *self;
                self.entity_to_chunk.remove(i);
                self.entity_to_chunk.insert(i, (entity, next_chunk));
                proof {
                    assert(self.entities() =~= start.entities().update(i as int, (entity, next_chunk)));
                    lemma_entity_moved(start.entities(), self.entities(), entity, next_chunk);
                    assert(start.chunk_of(entity) == Some(current));
                    assert(self.lists() == removed.lists());
                    assert forall|c: ChunkKey, e: u64| #[trigger] self.listed(c, e) <==> start.listed(c, e) && !(c == current && e == entity) by {
                        assert(self.listed(c, e) == removed.listed(c, e));
                    }
                    assert forall|c: ChunkKey| !#[trigger] self.listed(c, entity) by {
                        if self.listed(c, entity) {
                            assert(start.listed(c, entity));
                        }
                    }
                }
            },
            None => {
                self.entity_to_chunk.push((entity, next_chunk));
                proof {
                    lemma_entity_moved(start.entities(), self.entities(), entity, next_chunk);
                    assert forall|c: ChunkKey| !#[trigger] self.listed(c, entity) by {
                        if self.listed(c, entity) {
                            assert(start.listed(c, entity));
                        }
                    }
                }
            },
        }
        let ghost mid = *self;
        match find_chunk(&self.chunk_to_entities, &next_chunk) {
            Some(j) => {
                let (k, mut list) = self.chunk_to_entities.remove(j);
                let ghost old_list = list@;
                proof {
                    assert(mid.lists()[j as int] == (k, old_list));
                    assert(!old_list.contains(entity)) by {
                        if old_list.contains(entity) {
                            assert(mid.listed(k, entity));
                        }
                    }
                }
                list.push(entity);
                self.chunk_to_entities.insert(j, (k, list));
                proof {
                    let before = mid.lists();
                    let after = self.lists();
                    assert(after =~= before.update(j as int, (k, old_list.push(entity))));
                    assert forall|a: int, b: int| 0 <= a < b < after.len() implies #[trigger] after[a].0 != #[trigger] after[b].0 by {
                        assert(before[a].0 != before[b].0);
                    }
                    assert forall|i: int| 0 <= i < after.len() implies (#[trigger] after[i]).1.len() > 0 && after[i].1.no_duplicates() by {
                        if i == j {
                            assert forall|a: int, b: int| 0 <= a < b < after[i].1.len() implies after[i].1[a] != after[i].1[b] by {
                                if b == old_list.len() {
                                    assert(old_list.contains(old_list[a]));
                                } else {
                                    assert(before[i].1[a] != before[i].1[b]);
                                }
                            }
                        } else {
                            assert(after[i] == before[i]);
                        }
                    }
                    assert forall|c: ChunkKey, e: u64| #[trigger] self.listed(c, e) <==> mid.listed(c, e) || (c == next_chunk && e == entity) by {
                        if self.listed(c, e) {
                            let i = choose|i: int| 0 <= i < after.len() && (#[trigger] after[i]).0 == c && after[i].1.contains(e);
                            if i != j {
                                assert(before[i] == after[i]);
                            } else if e != entity {
                                let a = choose|a: int| 0 <= a < after[i].1.len() && after[i].1[a] == e;
                                assert(old_list[a] == e);
                            }
                        }
                        if mid.listed(c, e) {
                            let i = choose|i: int| 0 <= i < before.len() && (#[trigger] before[i]).0 == c && before[i].1.contains(e);
                            if i == j {
                                let a = choose|a: int| 0 <= a < old_list.len() && old_list[a] == e;
                                assert(after[i].1[a] == e);
                            } else {
                                assert(after[i] == before[i]);
                            }
                        }
                        if c == next_chunk && e == entity {
                            assert(after[j as int].1[old_list.len() as int] == entity);
                        }
                    }
                }
            },
            None => {
                let mut list: Vec<u64> = Vec::new();
                list.push(entity);
                self.chunk_to_entities.push((next_chunk, list));
                proof {
                    let before = mid.lists();
                    let after = self.lists();
                    assert(after =~= before.push((next_chunk, seq![entity])));
                    lemma_push_keys(before, (next_chunk, seq![entity]));
                    assert forall|i: int| 0 <= i < after.len() implies (#[trigger] after[i]).1.len() > 0 && after[i].1.no_duplicates() by {
                        if i < before.len() {
                            assert(after[i] == before[i]);
                        }
                    }
                    assert forall|c: ChunkKey, e: u64| #[trigger] self.listed(c, e) <==> mid.listed(c, e) || (c == next_chunk && e == entity) by {
                        if self.listed(c, e) {
                            let i = choose|i: int| 0 <= i < after.len() && (#[trigger] after[i]).0 == c && after[i].1.contains(e);
                            if i < before.len() {
                                assert(before[i] == after[i]);
                            } else {
                                assert(after[i].1 == seq![entity]);
                            }
                        }
                        if mid.listed(c, e) {
                            let i = choose|i: int| 0 <= i < before.len() && (#[trigger] before[i]).0 == c && before[i].1.contains(e);
                            assert(after[i] == before[i]);
                        }
                        if c == next_chunk && e == entity {
                            assert(after[before.len() as int].1[0] == entity);
                        }
                    }
                }
            },
        }
        proof {
            assert forall|c: ChunkKey, e: u64| #[trigger] self.listed(c, e) <==> self.chunk_of(e) == Some(c) by {
                if e != entity {
                    assert(mid.listed(c, e) <==> start.listed(c, e));
                    assert(start.listed(c, e) <==> start.chunk_of(e) == Some(c));
                }
            }
        }
    }

    /// The chunk `entity` is in, if it is tracked.
    pub fn chunk_of_entity(&self, entity: u64) -> (r: Option<ChunkKey>)
        requires
            self.wf(),
        ensures
            r == self.chunk_of(entity),
    {
        match find_entity(&self.entity_to_chunk, entity) {
            Some(i) => {
                proof {
                    lemma_index_of_key(self.entities(), i as int);
                }
                Some(self.entity_to_chunk[i].1)
            },
            None => None,
        }
    }

    /// How many entities chunk `key` lists.
    pub fn entity_count(&self, key: ChunkKey) -> (r: usize)
        requires
            self.wf(),
        ensures
            r == self.count_in(key),
    {
        match find_chunk(&self.chunk_to_entities, &key) {
            Some(j) => {
                proof {
                    assert(self.lists()[j as int].0 == key);
                    lemma_index_of_key(self.lists(), j as int);
                }
                self.chunk_to_entities[j].1.len()
            },
            None => 0,
        }
    }
}

} // verus!
