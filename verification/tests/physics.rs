use monarch_engine::cell::WorldCell;
use monarch_engine::geom::IVec2;
use monarch_engine::hash::{spatial_hash, spatial_hash_extended};
use monarch_engine::physics::{calc_granular_transfer, calc_liquid_transfer};

fn cell(elevation: u16, granular: u16, fluid: u16) -> WorldCell {
    let mut c = WorldCell::default();
    c.set_elevation(elevation);
    c.set_granular_vol(granular);
    c.set_fluid_vol(fluid);
    c
}

#[test]
fn spatial_hash_known_values() {
    assert_eq!(spatial_hash(IVec2::new(0, 0), 0), 0);
    assert_eq!(spatial_hash(IVec2::new(3, 4), 7), 4076419417);
    assert_eq!(spatial_hash(IVec2::new(-5, 9), 100), 2209075570);
    assert_eq!(spatial_hash(IVec2::new(1, 0), 0), 2575646915);
    assert_eq!(spatial_hash_extended(IVec2::new(3, 4), 7, 2, 5), 605772583);
}

#[test]
fn granular_transfer_is_capped_by_source_volume() {
    let src = cell(10, 5, 0);
    let dst = cell(2, 0, 0);
    assert_eq!(calc_granular_transfer(&src, &dst, IVec2::new(3, 4), 7), 5);
}

#[test]
fn granular_transfer_moves_half_the_drop() {
    let src = cell(0, 40, 0);
    let dst = cell(0, 10, 0);
    assert_eq!(calc_granular_transfer(&src, &dst, IVec2::new(3, 4), 7), 15);
}

#[test]
fn granular_transfer_never_goes_uphill() {
    let src = cell(2, 3, 0);
    let dst = cell(4, 3, 0);
    assert_eq!(calc_granular_transfer(&src, &dst, IVec2::new(0, 0), 0), 0);
}

#[test]
fn granular_transfer_stops_at_the_destination_capacity() {
    let src = cell(1000, 300, 0);
    assert_eq!(calc_granular_transfer(&src, &cell(0, 511, 0), IVec2::new(0, 0), 0), 0);
    assert_eq!(calc_granular_transfer(&src, &cell(0, 510, 0), IVec2::new(0, 0), 0), 1);
    assert_eq!(calc_granular_transfer(&src, &cell(0, 509, 0), IVec2::new(0, 0), 0), 2);
}

#[test]
fn liquid_transfer_levels_two_pools() {
    let src = cell(10, 0, 40);
    let dst = cell(10, 0, 0);
    assert_eq!(calc_liquid_transfer(&src, &dst, IVec2::new(3, 4), 7), 20);
}

#[test]
fn liquid_transfer_counts_sand_under_the_water() {
    let src = cell(10, 5, 10);
    let dst = cell(10, 20, 0);
    // surfaces 25 and 30: the destination is higher
    assert_eq!(calc_liquid_transfer(&src, &dst, IVec2::new(3, 4), 7), 0);
}

#[test]
fn a_single_unit_sloshes_on_even_hashes_only() {
    let src = cell(10, 0, 1);
    let dst = cell(10, 0, 0);
    // spatial_hash((0, 0), 0) is 0: even, the unit moves
    assert_eq!(calc_liquid_transfer(&src, &dst, IVec2::new(0, 0), 0), 1);
    // spatial_hash((1, 0), 0) is odd: it stays
    assert_eq!(calc_liquid_transfer(&src, &dst, IVec2::new(1, 0), 0), 0);
}
