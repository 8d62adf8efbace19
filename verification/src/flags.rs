use vstd::prelude::*;

verus! {

/// Regional hints attached to each side of a meta cell.
#[derive(Debug, Clone, Copy, PartialEq, Eq, Structural)]
pub struct MetaFlags(pub u16);

/// Per-side regional hints of a coarse meta cell.
#[derive(Debug, Clone, Copy, PartialEq, Eq, Structural)]
pub struct MetaCell {
    pub top: MetaFlags,
    pub bottom: MetaFlags,
    pub left: MetaFlags,
    pub right: MetaFlags,
}

proof fn lemma_u16_flag_ops(a: u16, b: u16)
    by (bit_vector)
    ensures
        ((a | b) & b) == b,
        ((a | b) & a) == a,
        ((a & !b) & b) == 0,
        forall|c: u16| (c & b) == 0 ==> ((a & !b) & c) == (a & c),
{
}

impl MetaFlags {
    pub const NONE: u16 = 0;
    pub const NEARBY_WATER_POOL: u16 = 1;
    pub const NEARBY_LAND: u16 = 2;
    pub const INFESTED_AREA: u16 = 4;
    pub const FOREST_FIRE: u16 = 8;

    /// True when every bit of `other` is set in `self`.
    pub fn contains(&self, other: Self) -> (r: bool)
        ensures
            r == ((self.0 & other.0) == other.0),
    {
        (self.0 & other.0) == other.0
    }

    /// Sets every bit of `other`, keeping the bits already set.
    pub fn insert(&mut self, other: Self)
        ensures
            final(self).0 == (old(self).0 | other.0),
            (final(self).0 & other.0) == other.0,
            (final(self).0 & old(self).0) == old(self).0,
    {
        proof {
            lemma_u16_flag_ops(self.0, other.0);
        }
        self.0 = self.0 | other.0;
    }

    /// Clears every bit of `other`, keeping the bits that `other` does not name.
    pub fn remove(&mut self, other: Self)
        ensures
            final(self).0 == (old(self).0 & !other.0),
            (final(self).0 & other.0) == 0,
            forall|c: u16| (c & other.0) == 0 ==> (final(self).0 & c) == (old(self).0 & c),
    {
        proof {
            lemma_u16_flag_ops(self.0, other.0);
        }
        self.0 = self.0 & !other.0;
    }
}

/// Identifies the kind of a serialized entity.
#[derive(Debug, Clone, Copy, PartialEq, Eq, Hash, Structural)]
pub struct EntityTypeId(pub u32);

impl EntityTypeId {
    pub const HERO: u32 = 1;
    pub const WIZARD: u32 = 2;
    pub const MINION_HUMAN: u32 = 3;
    pub const MINION_GIANT: u32 = 4;
    pub const RIGID_SPHERE: u32 = 5;
}

/// Behaviour bits of a serialized entity.
#[derive(Debug, Clone, Copy, PartialEq, Eq, Structural)]
pub struct EntityFlags(pub u16);

impl EntityFlags {
    pub const NONE: u16 = 0;
    pub const IS_ACTIVE: u16 = 1;
    pub const IS_VISIBLE: u16 = 2;
    pub const IS_COLLIDABLE: u16 = 4;
    pub const IS_INTERACTABLE: u16 = 8;
    pub const IS_DESTRUCTIBLE: u16 = 16;
    pub const IS_TRANSPARENT: u16 = 32;
    pub const IS_ANIMATED: u16 = 64;
    pub const IS_HOSTILE: u16 = 256;
}

} // verus!
