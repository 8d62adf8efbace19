use monarch_engine::dirs::{FlowPattern, ShuffledDirs};
use monarch_engine::geom::IVec2;
use rand::SeedableRng;

fn sorted(v: &[IVec2]) -> Vec<(i32, i32)> {
    let mut out: Vec<(i32, i32)> = v.iter().map(|d| (d.x, d.y)).collect();
    out.sort();
    out
}

#[test]
fn deterministic_shuffles_permute_the_pattern() {
    let omni = ShuffledDirs::new_deterministic(FlowPattern::Omni, IVec2::new(3, 4), 7, 2, 0);
    assert_eq!(omni.get().len(), 8);
    assert_eq!(
        sorted(omni.get()),
        vec![(-1, -1), (-1, 0), (-1, 1), (0, -1), (0, 1), (1, -1), (1, 0), (1, 1)]
    );
    let card = ShuffledDirs::new_deterministic(FlowPattern::Cardinal, IVec2::new(3, 4), 7, 2, 0);
    assert_eq!(sorted(card.get()), vec![(-1, 0), (0, -1), (0, 1), (1, 0)]);
}

#[test]
fn deterministic_shuffles_repeat_for_the_same_inputs() {
    let a = ShuffledDirs::new_deterministic(FlowPattern::Omni, IVec2::new(-9, 12), 41, 1, 3);
    let b = ShuffledDirs::new_deterministic(FlowPattern::Omni, IVec2::new(-9, 12), 41, 1, 3);
    assert_eq!(a.get(), b.get());
}

#[test]
fn random_shuffles_permute_the_pattern() {
    let mut rng = rand::rngs::SmallRng::seed_from_u64(11);
    let r = ShuffledDirs::new_random(FlowPattern::Cardinal, &mut rng);
    assert_eq!(sorted(r.get()), vec![(-1, 0), (0, -1), (0, 1), (1, 0)]);
}

#[test]
fn momentum_puts_the_facing_direction_first() {
    // facing north: (0, 1) leads
    let m = ShuffledDirs::new_deterministic_with_momentum(FlowPattern::Omni, IVec2::new(1, 1), 0, 1, 0, 1);
    assert_eq!(m.get()[0], IVec2::new(0, 1));
    assert_eq!(m.get().len(), 8);
}
