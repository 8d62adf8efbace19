use monarch_engine::input::AxisInput;
use monarch_engine::observer::{plan_observer_frame, BodyChange, ObserverCommand, ObserverModes, ObserverMotion};

fn idle() -> ObserverCommand {
    ObserverCommand {
        depth: AxisInput::Neutral,
        lateral: AxisInput::Neutral,
        vertical: AxisInput::Neutral,
        is_jumping: false,
        toggle_noclip: false,
        toggle_grid_attachment: false,
    }
}

#[test]
fn a_flying_observer_moves_along_its_axes() {
    let modes = ObserverModes { is_noclip: true, is_grid_attached: true };
    let command = ObserverCommand { depth: AxisInput::Negative, lateral: AxisInput::Positive, vertical: AxisInput::Negative, ..idle() };
    let plan = plan_observer_frame(modes, command, false, true);
    assert_eq!(plan.modes, modes);
    assert_eq!(plan.body, BodyChange::Keep);
    assert_eq!(plan.motion, ObserverMotion::Fly { forward: 1, right: 1, up: -1 });
}

#[test]
fn leaving_noclip_grants_a_body_that_steers_from_the_next_frame() {
    let modes = ObserverModes { is_noclip: true, is_grid_attached: true };
    let command = ObserverCommand { depth: AxisInput::Positive, toggle_noclip: true, ..idle() };
    let first = plan_observer_frame(modes, command, false, true);
    assert_eq!(first.modes, ObserverModes { is_noclip: false, is_grid_attached: true });
    assert_eq!(first.body, BodyChange::Insert);
    assert_eq!(first.motion, ObserverMotion::Still);

    let walk = ObserverCommand { depth: AxisInput::Positive, is_jumping: true, ..idle() };
    let second = plan_observer_frame(first.modes, walk, true, true);
    assert_eq!(second.body, BodyChange::Keep);
    assert_eq!(second.motion, ObserverMotion::Steer { forward: -1, right: 0, jump: true });
}

#[test]
fn a_rising_body_does_not_jump_again() {
    let modes = ObserverModes { is_noclip: false, is_grid_attached: false };
    let command = ObserverCommand { lateral: AxisInput::Negative, is_jumping: true, ..idle() };
    let plan = plan_observer_frame(modes, command, true, false);
    assert_eq!(plan.motion, ObserverMotion::Steer { forward: 0, right: -1, jump: false });
}

#[test]
fn entering_noclip_takes_the_body_away_and_flies_at_once() {
    let modes = ObserverModes { is_noclip: false, is_grid_attached: true };
    let command = ObserverCommand { vertical: AxisInput::Positive, toggle_noclip: true, toggle_grid_attachment: true, ..idle() };
    let plan = plan_observer_frame(modes, command, true, true);
    assert_eq!(plan.modes, ObserverModes { is_noclip: true, is_grid_attached: false });
    assert_eq!(plan.body, BodyChange::Remove);
    assert_eq!(plan.motion, ObserverMotion::Fly { forward: 0, right: 0, up: 1 });
}

#[test]
fn the_same_toggles_twice_restore_the_modes() {
    let modes = ObserverModes { is_noclip: false, is_grid_attached: true };
    let command = ObserverCommand { toggle_noclip: true, toggle_grid_attachment: true, ..idle() };
    let first = plan_observer_frame(modes, command, true, true);
    let second = plan_observer_frame(first.modes, command, false, true);
    assert_eq!(second.modes, modes);
    assert_eq!(first.body, BodyChange::Remove);
    assert_eq!(second.body, BodyChange::Insert);
}

#[test]
fn held_controls_give_an_axis_only_when_one_side_is_held() {
    assert_eq!(AxisInput::from_held(true, false), AxisInput::Negative);
    assert_eq!(AxisInput::from_held(false, true), AxisInput::Positive);
    assert_eq!(AxisInput::from_held(true, true), AxisInput::Neutral);
    assert_eq!(AxisInput::from_held(false, false), AxisInput::Neutral);
    assert_eq!(AxisInput::Negative.signum(), -1);
    assert_eq!(AxisInput::Positive.signum(), 1);
}
