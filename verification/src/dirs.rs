use vstd::prelude::*;
use crate::cell::CompassFlags;
use crate::geom::IVec2;
use crate::hash::{spatial_hash_extended, spatial_hash_extended_spec};
use crate::rng::shuffle_prefix;
use rand::rngs::SmallRng;

verus! {

/// Which neighbours a flowing material may move to.
#[derive(Debug, Clone, Copy, PartialEq, Eq, Structural)]
pub enum FlowPattern {
    /// All eight neighbours.
    Omni,
    /// The four edge neighbours.
    Cardinal,
}

pub open spec fn v2(x: int, y: int) -> IVec2 {
    IVec2 { x: x as i32, y: y as i32 }
}

/// The neighbour offsets of a pattern, in their unshuffled order, padded with zeros to eight.
pub open spec fn base_dirs(pattern: FlowPattern) -> Seq<IVec2> {
    match pattern {
        FlowPattern::Omni => seq![
            v2(0, 1),
            v2(1, 1),
            v2(1, 0),
            v2(1, -1),
            v2(0, -1),
            v2(-1, -1),
            v2(-1, 0),
            v2(-1, 1),
        ],
        FlowPattern::Cardinal => seq![
            v2(0, 1),
            v2(1, 0),
            v2(0, -1),
            v2(-1, 0),
            v2(0, 0),
            v2(0, 0),
            v2(0, 0),
            v2(0, 0),
        ],
    }
}

pub open spec fn base_count(pattern: FlowPattern) -> int {
    match pattern {
        FlowPattern::Omni => 8,
        FlowPattern::Cardinal => 4,
    }
}

/// The hash state after one step of the deterministic shuffle.
pub open spec fn next_hash(h: u32) -> u32 {
    h.wrapping_mul(0x9E37_79B1).wrapping_add(1)
}

/// Fisher-Yates shuffle driven by a hash: for `i` from `i` down to 1, swap `i` with `h % (i + 1)`.
pub open spec fn hash_shuffle(s: Seq<IVec2>, i: int, h: u32) -> Seq<IVec2>
    decreases i,
{
    if i < 1 {
        s
    } else {
        let j = (h as int) % (i + 1);
        hash_shuffle(s.update(i, s[j]).update(j, s[i]), i - 1, next_hash(h))
    }
}

/// The direction a compass field points to (N is +y, E is +x).
pub open spec fn compass_forward(flags: u8) -> IVec2 {
    v2(
        (if flags & 4 != 0 { 1int } else { 0int }) - (if flags & 8 != 0 { 1int } else { 0int }),
        (if flags & 1 != 0 { 1int } else { 0int }) - (if flags & 2 != 0 { 1int } else { 0int }),
    )
}

/// Index of the first occurrence of `d` among the first `n` entries of `s`.
pub open spec fn first_index(s: Seq<IVec2>, n: int, d: IVec2) -> Option<int>
    decreases n,
{
    if n <= 0 {
        None
    } else {
        match first_index(s, n - 1, d) {
            Some(k) => Some(k),
            None => if s[n - 1] == d {
                Some(n - 1)
            } else {
                None
            },
        }
    }
}

/// Moves the compass direction to the front, swapping it with the first entry.
pub open spec fn face_forward(s: Seq<IVec2>, count: int, flags: u8) -> Seq<IVec2> {
    let f = compass_forward(flags);
    if f == v2(0, 0) {
        s
    } else {
        match first_index(s, count, f) {
            Some(k) => s.update(0, s[k]).update(k, s[0]),
            None => s,
        }
    }
}

/// The order in which the deterministic shuffle visits the neighbours of `pos`.
#[verifier::opaque]
pub open spec fn deterministic_dirs(pattern: FlowPattern, pos: IVec2, tick: u32, material: u8, cadence: u32) -> Seq<IVec2> {
    hash_shuffle(
        base_dirs(pattern),
        base_count(pattern) - 1,
        spatial_hash_extended_spec(pos.x, pos.y, tick, material, cadence),
    ).subrange(0, base_count(pattern))
}

/// As `deterministic_dirs`, then with the compass direction moved to the front.
#[verifier::opaque]
pub open spec fn deterministic_momentum_dirs(
    pattern: FlowPattern,
    pos: IVec2,
    tick: u32,
    material: u8,
    cadence: u32,
    flags: u8,
) -> Seq<IVec2> {
    face_forward(
        hash_shuffle(
            base_dirs(pattern),
            base_count(pattern) - 1,
            spatial_hash_extended_spec(pos.x, pos.y, tick, material, cadence),
        ),
        base_count(pattern),
        flags,
    ).subrange(0, base_count(pattern))
}

/// A shuffled list of neighbour offsets.
pub struct ShuffledDirs {
    dirs: [IVec2; 8],
    count: usize,
}

impl ShuffledDirs {
    /// The offsets in visiting order.
    pub closed spec fn seq(&self) -> Seq<IVec2> {
        self.dirs@.subrange(0, self.count as int)
    }

    pub closed spec fn full(&self) -> Seq<IVec2> {
        self.dirs@
    }

    pub closed spec fn count_spec(&self) -> int {
        self.count as int
    }

    pub closed spec fn wf(&self) -> bool {
        self.count <= 8
    }

    fn get_base_pattern(pattern: FlowPattern) -> (r: ([IVec2; 8], usize))
        ensures
            r.0@ == base_dirs(pattern),
            r.1 == base_count(pattern),
    {
        match pattern {
            FlowPattern::Omni => {
                let a = [
                    IVec2::new(0, 1),
                    IVec2::new(1, 1),
                    IVec2::new(1, 0),
                    IVec2::new(1, -1),
                    IVec2::new(0, -1),
                    IVec2::new(-1, -1),
                    IVec2::new(-1, 0),
                    IVec2::new(-1, 1),
                ];
                assert(a@ =~= base_dirs(pattern));
                (a, 8)
            },
            FlowPattern::Cardinal => {
                let a = [
                    IVec2::new(0, 1),
                    IVec2::new(1, 0),
                    IVec2::new(0, -1),
                    IVec2::new(-1, 0),
                    IVec2::zero(),
                    IVec2::zero(),
                    IVec2::zero(),
                    IVec2::zero(),
                ];
                assert(a@ =~= base_dirs(pattern));
                (a, 4)
            },
        }
    }

    fn hash_shuffle_in_place(dirs: &mut [IVec2; 8], count: usize, h0: u32)
        requires
            1 <= count <= 8,
        ensures
            final(dirs)@ == hash_shuffle(old(dirs)@, count - 1, h0),
    {
        let ghost start = dirs@;
        let mut h = h0;
        let mut i: usize = count - 1;
        while i >= 1
            invariant
                i < count <= 8,
                dirs@.len() == 8,
                hash_shuffle(dirs@, i as int, h) == hash_shuffle(start, count - 1, h0),
            decreases i,
        {
            let j = (h % (i as u32 + 1)) as usize;
            let di = dirs[i];
            let dj = dirs[j];
            dirs[i] = dj;
            dirs[j] = di;
            h = h.wrapping_mul(0x9E37_79B1).wrapping_add(1);
            i = i - 1;
        }
    }

    /// Swaps the compass direction of `flags` into the first slot, if it is among the offsets.
    pub fn prioritize_forward(&mut self, flags: u8)
        requires
            old(self).wf(),
        ensures
            final(self).wf(),
            final(self).count_spec() == old(self).count_spec(),
            final(self).full() == face_forward(old(self).full(), old(self).count_spec(), flags),
    {
        let mut forward = IVec2::zero();
        if (flags & CompassFlags::FACING_N) != 0 {
            forward.y = forward.y + 1;
        }
        if (flags & CompassFlags::FACING_S) != 0 {
            forward.y = forward.y - 1;
        }
        if (flags & CompassFlags::FACING_E) != 0 {
            forward.x = forward.x + 1;
        }
        if (flags & CompassFlags::FACING_W) != 0 {
            forward.x = forward.x - 1;
        }
        assert(forward == compass_forward(flags));
        if forward != IVec2::zero() {
            let mut k: usize = 0;
            while k < self.count
                invariant
                    k <= self.count <= 8,
                    self.count == old(self).count,
                    self.dirs@ == old(self).dirs@,
                    self.dirs@.len() == 8,
                    forward == compass_forward(flags),
                    forward != v2(0, 0),
                    first_index(self.dirs@, k as int, forward) is None,
                decreases self.count - k,
            {
                if self.dirs[k] == forward {
                    assert(first_index(self.dirs@, k + 1, forward) == Some(k as int));
                    proof {
                        lemma_first_index_extends(self.dirs@, k as int + 1, self.count as int, forward);
                    }
                    let d0 = self.dirs[0];
                    let dk = self.dirs[k];
                    self.dirs[0] = dk;
                    self.dirs[k] = d0;
                    return;
                }
                k = k + 1;
            }
        }
    }

    /// Shuffles the pattern by the position's hash; the same inputs always give the same order.
    pub fn new_deterministic(pattern: FlowPattern, pos: IVec2, tick: u32, material: u8, cadence: u32) -> (r: Self)
        ensures
            r.wf(),
            r.seq() == deterministic_dirs(pattern, pos, tick, material, cadence),
            r.count_spec() == base_count(pattern),
    {
        reveal(deterministic_dirs);
        let h = spatial_hash_extended(pos, tick, material, cadence);
        let (mut dirs, count) = Self::get_base_pattern(pattern);
        Self::hash_shuffle_in_place(&mut dirs, count, h);
        ShuffledDirs { dirs, count }
    }

    /// As `new_deterministic`, then with the compass direction of `flags` moved to the front.
    pub fn new_deterministic_with_momentum(
        pattern: FlowPattern,
        pos: IVec2,
        tick: u32,
        material: u8,
        cadence: u32,
        flags: u8,
    ) -> (r: Self)
        ensures
            r.wf(),
            r.seq() == deterministic_momentum_dirs(pattern, pos, tick, material, cadence, flags),
            r.count_spec() == base_count(pattern),
    {
        reveal(deterministic_momentum_dirs);
        let h = spatial_hash_extended(pos, tick, material, cadence);
        let (mut dirs, count) = Self::get_base_pattern(pattern);
        Self::hash_shuffle_in_place(&mut dirs, count, h);
        let mut r = ShuffledDirs { dirs, count };
        r.prioritize_forward(flags);
        r
    }

    /// Shuffles the pattern with a random generator.
    pub fn new_random(pattern: FlowPattern, rng: &mut SmallRng) -> (r: Self)
        ensures
            r.wf(),
            r.count_spec() == base_count(pattern),
            r.seq().to_multiset() == base_dirs(pattern).subrange(0, base_count(pattern)).to_multiset(),
    {
        let (mut dirs, count) = Self::get_base_pattern(pattern);
        shuffle_prefix(&mut dirs, count, rng);
        ShuffledDirs { dirs, count }
    }

    /// Shuffles the pattern with a random generator, then moves the compass direction to the front.
    pub fn new_with_momentum(pattern: FlowPattern, flags: u8, rng: &mut SmallRng) -> (r: Self)
        ensures
            r.wf(),
            r.count_spec() == base_count(pattern),
            r.seq().len() == base_count(pattern),
            r.seq().to_multiset() == base_dirs(pattern).subrange(0, base_count(pattern)).to_multiset(),
            compass_forward(flags) != v2(0, 0) && r.seq().contains(compass_forward(flags)) ==> r.seq()[0]
                == compass_forward(flags),
            exists|s: Seq<IVec2>|
                #![trigger face_forward(s, base_count(pattern), flags)]
                s.len() == 8 && s.subrange(0, base_count(pattern)).to_multiset() == base_dirs(pattern).subrange(
                    0,
                    base_count(pattern),
                ).to_multiset() && r.seq() == face_forward(s, base_count(pattern), flags).subrange(
                    0,
                    base_count(pattern),
                ),
    {
        let mut r = Self::new_random(pattern, rng);
        let ghost s = r.full();
        let ghost n = base_count(pattern);
        r.prioritize_forward(flags);
        proof {
            let f = compass_forward(flags);
            assert(r.full() == face_forward(s, n, flags));
            assert(r.seq() == face_forward(s, n, flags).subrange(0, n));
            assert(s.subrange(0, n).to_multiset() == base_dirs(pattern).subrange(0, n).to_multiset());
            if f != v2(0, 0) {
                match first_index(s, n, f) {
                    Some(k) => {
                        lemma_first_index_some(s, n, f);
                        lemma_swap_keeps_multiset(s.subrange(0, n), k);
                        assert(r.seq() =~= s.subrange(0, n).update(0, s[k]).update(k, s[0]));
                    },
                    None => {
                        if r.seq().contains(f) {
                            let j = choose|j: int| 0 <= j < r.seq().len() && r.seq()[j] == f;
                            assert(s[j] == f);
                            lemma_first_index_found(s, n, f, j);
                        }
                    },
                }
            }
        }
        r
    }

    /// The offsets in visiting order.
    pub fn get(&self) -> (r: &[IVec2])
        requires
            self.wf(),
        ensures
            r@ == self.seq(),
    {
        let s = self.dirs.as_slice();
        vstd::slice::slice_subrange(s, 0, self.count)
    }
}

/// What `first_index` finds is an occurrence of `d` among the first `n` entries.
proof fn lemma_first_index_some(s: Seq<IVec2>, n: int, d: IVec2)
    requires
        first_index(s, n, d) is Some,
    ensures
        0 <= first_index(s, n, d)->0 < n,
        s[first_index(s, n, d)->0] == d,
    decreases n,
{
    if n > 0 && first_index(s, n - 1, d) is Some {
        lemma_first_index_some(s, n - 1, d);
    }
}

/// An occurrence of `d` among the first `n` entries is found.
proof fn lemma_first_index_found(s: Seq<IVec2>, n: int, d: IVec2, j: int)
    requires
        0 <= j < n,
        s[j] == d,
    ensures
        first_index(s, n, d) is Some,
    decreases n,
{
    if j < n - 1 {
        lemma_first_index_found(s, n - 1, d, j);
    }
}

/// Swapping the first entry with another keeps the entries.
proof fn lemma_swap_keeps_multiset(p: Seq<IVec2>, k: int)
    requires
        0 <= k < p.len(),
    ensures
        p.update(0, p[k]).update(k, p[0]).to_multiset() == p.to_multiset(),
{
    broadcast use {
        vstd::seq_lib::to_multiset_update,
        vstd::seq_lib::to_multiset_contains,
        vstd::multiset::group_multiset_axioms,
    };

    if k == 0 {
        assert(p.update(0, p[0]).update(0, p[0]) =~= p);
    } else {
        let q = p.update(0, p[k]);
        assert(q[k] == p[k]);
        assert(p.contains(p[0]));
        assert(p.contains(p[k]));
        assert(p.to_multiset().count(p[0]) > 0);
        assert(p.to_multiset().count(p[k]) > 0);
        assert(q.update(k, p[0]).to_multiset() =~= p.to_multiset());
    }
}

proof fn lemma_first_index_extends(s: Seq<IVec2>, k: int, n: int, d: IVec2)
    requires
        0 <= k <= n,
        first_index(s, k, d) is Some,
    ensures
        first_index(s, n, d) == first_index(s, k, d),
    decreases n - k,
{
    if k < n {
        lemma_first_index_extends(s, k, n - 1, d);
    }
}

/// An offset to one of the eight neighbours or to the cell itself.
pub open spec fn unit_offset(d: IVec2) -> bool {
    -1 <= d.x <= 1 && -1 <= d.y <= 1
}

pub open spec fn all_unit(s: Seq<IVec2>) -> bool {
    forall|k: int| 0 <= k < s.len() ==> #[trigger] unit_offset(s[k])
}

proof fn lemma_hash_shuffle_unit(s: Seq<IVec2>, i: int, h: u32)
    requires
        s.len() == 8,
        i < 8,
        all_unit(s),
    ensures
        hash_shuffle(s, i, h).len() == 8,
        all_unit(hash_shuffle(s, i, h)),
    decreases i,
{
    if i >= 1 {
        let j = (h as int) % (i + 1);
        let t = s.update(i, s[j]).update(j, s[i]);
        assert(all_unit(t));
        lemma_hash_shuffle_unit(t, i - 1, next_hash(h));
    }
}

proof fn lemma_first_index_in_range(s: Seq<IVec2>, n: int, d: IVec2)
    ensures
        first_index(s, n, d) matches Some(k) ==> 0 <= k < n && s[k] == d,
    decreases n,
{
    if n > 0 {
        lemma_first_index_in_range(s, n - 1, d);
    }
}

/// Every order the deterministic shuffles produce holds only unit offsets, as many as the pattern has.
pub proof fn lemma_deterministic_dirs_unit(pattern: FlowPattern, pos: IVec2, tick: u32, material: u8, cadence: u32, flags: u8)
    ensures
        deterministic_dirs(pattern, pos, tick, material, cadence).len() == base_count(pattern),
        all_unit(deterministic_dirs(pattern, pos, tick, material, cadence)),
        deterministic_momentum_dirs(pattern, pos, tick, material, cadence, flags).len() == base_count(pattern),
        all_unit(deterministic_momentum_dirs(pattern, pos, tick, material, cadence, flags)),
{
    reveal(deterministic_dirs);
    reveal(deterministic_momentum_dirs);
    let b = base_dirs(pattern);
    assert(all_unit(b));
    let h = spatial_hash_extended_spec(pos.x, pos.y, tick, material, cadence);
    lemma_hash_shuffle_unit(b, base_count(pattern) - 1, h);
    let t = hash_shuffle(b, base_count(pattern) - 1, h);
    lemma_first_index_in_range(t, base_count(pattern), compass_forward(flags));
    let f = face_forward(t, base_count(pattern), flags);
    assert(f.len() == 8);
    assert(all_unit(f));
    assert(all_unit(f.subrange(0, base_count(pattern))));
    assert(all_unit(t.subrange(0, base_count(pattern))));
}

} // verus!
