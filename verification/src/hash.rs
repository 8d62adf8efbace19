use vstd::prelude::*;
use crate::geom::IVec2;

verus! {

/// Avalanche step used by both hashes: xor with a right shift of itself.
pub open spec fn xor_shift(h: u32, s: u32) -> u32 {
    h ^ (h >> s)
}

/// Integer hash of a grid position and a tick.
#[verifier::opaque]
pub open spec fn spatial_hash_spec(x: i32, y: i32, tick: u32) -> u32 {
    let h0 = (x as u32).wrapping_mul(0x736A_153D) ^ (y as u32).wrapping_mul(0x9E37_79B1)
        ^ tick.wrapping_mul(0x11C6_4E6D);
    let h1 = xor_shift(h0, 16);
    let h2 = xor_shift(h1.wrapping_mul(0x85EB_CA6B), 13);
    xor_shift(h2.wrapping_mul(0xC2B2_AE35), 16)
}

/// Integer hash of a grid position, a tick, a material and a cadence.
#[verifier::opaque]
pub open spec fn spatial_hash_extended_spec(x: i32, y: i32, tick: u32, material: u8, cadence: u32) -> u32 {
    let h0 = spatial_hash_spec(x, y, tick).wrapping_add((material as u32).wrapping_mul(0x27D4_EB2F)).wrapping_add(
        cadence.wrapping_mul(0x1656_67B1),
    );
    let h1 = xor_shift(h0, 13);
    xor_shift(h1.wrapping_mul(0x85EB_CA6B), 16)
}

pub fn spatial_hash(pos: IVec2, tick: u32) -> (r: u32)
    ensures
        r == spatial_hash_spec(pos.x, pos.y, tick),
{
    reveal(spatial_hash_spec);
    let mut h = (pos.x as u32).wrapping_mul(0x736A_153D) ^ (pos.y as u32).wrapping_mul(0x9E37_79B1)
        ^ tick.wrapping_mul(0x11C6_4E6D);
    h = h ^ (h >> 16);
    h = h.wrapping_mul(0x85EB_CA6B);
    h = h ^ (h >> 13);
    h = h.wrapping_mul(0xC2B2_AE35);
    h = h ^ (h >> 16);
    h
}

pub fn spatial_hash_extended(pos: IVec2, tick: u32, material: u8, cadence: u32) -> (r: u32)
    ensures
        r == spatial_hash_extended_spec(pos.x, pos.y, tick, material, cadence),
{
    reveal(spatial_hash_extended_spec);
    let mut h = spatial_hash(pos, tick).wrapping_add((material as u32).wrapping_mul(0x27D4_EB2F)).wrapping_add(
        cadence.wrapping_mul(0x1656_67B1),
    );
    h = h ^ (h >> 13);
    h = h.wrapping_mul(0x85EB_CA6B);
    h = h ^ (h >> 16);
    h
}

} // verus!
