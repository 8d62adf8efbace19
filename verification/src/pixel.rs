use vstd::prelude::*;

verus! {

/// The material of one layer of a layered cell.
#[derive(Debug, Clone, Copy, PartialEq, Eq, Structural)]
pub struct MaterialId(pub u8);

impl MaterialId {
    pub const EMPTY: u8 = 0;
    pub const DIRT: u8 = 1;
    pub const ROCK: u8 = 2;
    pub const WATER: u8 = 3;
    pub const BLOOD: u8 = 4;
}

/// Per-layer flag bits.
#[derive(Debug, Clone, Copy, PartialEq, Eq, Structural)]
pub struct PixelFlags(pub u8);

proof fn lemma_u8_flag_ops(a: u8, b: u8)
    by (bit_vector)
    ensures
        ((a | b) & b) == b,
        ((a | b) & a) == a,
        ((a & !b) & b) == 0,
        forall|c: u8| (c & b) == 0 ==> ((a & !b) & c) == (a & c),
{
}

impl PixelFlags {
    pub const NONE: u8 = 0;
    pub const IS_SOLID: u8 = 1;
    pub const WAKES_AWAKE: u8 = 2;

    /// True when every bit of `other` is set in `self`.
    pub fn contains(&self, other: Self) -> (r: bool)
        ensures
            r == ((self.0 & other.0) == other.0),
    {
        (self.0 & other.0) == other.0
    }

    /// Sets every bit of `other`, keeping the bits already set.
    pub fn insert(&mut self, other: Self)
        ensures
            final(self).0 == (old(self).0 | other.0),
            (final(self).0 & other.0) == other.0,
            (final(self).0 & old(self).0) == old(self).0,
    {
        proof {
            lemma_u8_flag_ops(self.0, other.0);
        }
        self.0 = self.0 | other.0;
    }

    /// Clears every bit of `other`, keeping the bits that `other` does not name.
    pub fn remove(&mut self, other: Self)
        ensures
            final(self).0 == (old(self).0 & !other.0),
            (final(self).0 & other.0) == 0,
            forall|c: u8| (c & other.0) == 0 ==> (final(self).0 & c) == (old(self).0 & c),
    {
        proof {
            lemma_u8_flag_ops(self.0, other.0);
        }
        self.0 = self.0 & !other.0;
    }
}

/// One layer of a layered cell: a material with its state, look and flags.
#[derive(Debug, Clone, Copy, PartialEq, Eq, Structural)]
pub struct Pixel {
    pub material: MaterialId,
    pub state: u8,
    pub variant: u8,
    pub flags: PixelFlags,
}

impl Pixel {
    /// The empty layer.
    pub open spec fn is_empty_spec(self) -> bool {
        self.material.0 == MaterialId::EMPTY && self.state == 0 && self.variant == 0 && self.flags.0
            == PixelFlags::NONE
    }
}

impl Default for Pixel {
    fn default() -> (r: Self)
        ensures
            r.is_empty_spec(),
    {
        Pixel {
            material: MaterialId(MaterialId::EMPTY),
            state: 0,
            variant: 0,
            flags: PixelFlags(PixelFlags::NONE),
        }
    }
}

/// A single position of the top-down world with its four layers, bottom to top.
#[derive(Debug, Clone, Copy, PartialEq, Eq, Structural)]
pub struct WorldCell {
    /// The base ground: rock, dirt, a pit.
    pub terrain: Pixel,
    /// Water, blood, loose sand.
    pub fluid: Pixel,
    /// Air, gas, mist.
    pub atmosphere: Pixel,
    /// What lies on top of the rest: a boat, a bridge, fire, a splatter, a pot, a flower.
    pub surface: Pixel,
}

impl Default for WorldCell {
    fn default() -> (r: Self)
        ensures
            r.terrain.is_empty_spec(),
            r.fluid.is_empty_spec(),
            r.atmosphere.is_empty_spec(),
            r.surface.is_empty_spec(),
    {
        WorldCell {
            terrain: Pixel::default(),
            fluid: Pixel::default(),
            atmosphere: Pixel::default(),
            surface: Pixel::default(),
        }
    }
}

} // verus!
