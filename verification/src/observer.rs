//! The free-roaming observer's decisions for one frame: which modes it toggles, whether its
//! physical body is granted or taken away, and how its wish to move is turned into motion.
//! The vectors, angles and speeds themselves are floating point and stay with the caller.
use vstd::prelude::*;
use crate::input::AxisInput;

verus! {

/// The observer's two switches.
#[derive(Debug, Clone, Copy, PartialEq, Eq, Structural)]
pub struct ObserverModes {
    /// Flies through the terrain, with no physical body.
    pub is_noclip: bool,
    pub is_grid_attached: bool,
}

/// The discrete part of what the player asked of the observer this frame.
#[derive(Debug, Clone, Copy, PartialEq, Eq, Structural)]
pub struct ObserverCommand {
    /// Along the view axis: negative is ahead.
    pub depth: AxisInput,
    /// Sideways: positive is to the right.
    pub lateral: AxisInput,
    /// Vertical: positive is up.
    pub vertical: AxisInput,
    pub is_jumping: bool,
    pub toggle_noclip: bool,
    pub toggle_grid_attachment: bool,
}

/// What happens to the observer's physical body.
#[derive(Debug, Clone, Copy, PartialEq, Eq, Structural)]
pub enum BodyChange {
    Keep,
    /// A body is granted: the observer leaves noclip.
    Insert,
    /// The body is taken away: the observer enters noclip.
    Remove,
}

/// How the observer moves this frame. The coefficients weigh the observer's forward, right
/// and up directions in the wish direction, which the caller normalises and scales by speed.
#[derive(Debug, Clone, Copy, PartialEq, Eq, Structural)]
pub enum ObserverMotion {
    /// Moves freely, through the terrain.
    Fly { forward: i8, right: i8, up: i8 },
    /// Sets the horizontal velocity of its body; `jump` launches it upwards.
    Steer { forward: i8, right: i8, jump: bool },
    /// Neither flies nor has a body to steer.
    Still,
}

/// The observer's decisions for one frame.
#[derive(Debug, Clone, Copy, PartialEq, Eq, Structural)]
pub struct ObserverPlan {
    pub modes: ObserverModes,
    pub body: BodyChange,
    pub motion: ObserverMotion,
}

/// The modes after the toggles of `command`: each switch flips when its toggle is set.
pub open spec fn toggled_modes(modes: ObserverModes, command: ObserverCommand) -> ObserverModes {
    ObserverModes {
        is_noclip: modes.is_noclip != command.toggle_noclip,
        is_grid_attached: modes.is_grid_attached != command.toggle_grid_attachment,
    }
}

/// The whole plan for a frame: `has_body` tells whether the observer had a body when the frame
/// began, and `settled` whether that body was not rising (a jump starts only then).
pub open spec fn observer_plan(modes: ObserverModes, command: ObserverCommand, has_body: bool, settled: bool) -> ObserverPlan {
    let next = toggled_modes(modes, command);
    ObserverPlan {
        modes: next,
        body: if !command.toggle_noclip {
            BodyChange::Keep
        } else if next.is_noclip {
            BodyChange::Remove
        } else {
            BodyChange::Insert
        },
        motion: if next.is_noclip {
            ObserverMotion::Fly {
                forward: (-command.depth.sign()) as i8,
                right: command.lateral.sign() as i8,
                up: command.vertical.sign() as i8,
            }
        } else if has_body {
            ObserverMotion::Steer {
                forward: (-command.depth.sign()) as i8,
                right: command.lateral.sign() as i8,
                jump: command.is_jumping && settled,
            }
        } else {
            ObserverMotion::Still
        },
    }
}

/// Decides the observer's frame: flips the toggled switches, grants or takes away the body
/// when noclip was toggled, and turns the axes of `command` into a flight or a steering of the
/// body (the body that the frame began with; a granted one takes effect on the next frame).
pub fn plan_observer_frame(modes: ObserverModes, command: ObserverCommand, has_body: bool, settled: bool) -> (r: ObserverPlan)
    ensures
        r == observer_plan(modes, command, has_body, settled),
{
    let mut next = modes;
    if command.toggle_grid_attachment {
        next.is_grid_attached = !next.is_grid_attached;
    }
    let mut body = BodyChange::Keep;
    if command.toggle_noclip {
        next.is_noclip = !next.is_noclip;
        body = if next.is_noclip {
            BodyChange::Remove
        } else {
            BodyChange::Insert
        };
    }
    let forward: i8 = 0 - command.depth.signum();
    let right: i8 = command.lateral.signum();
    let motion = if next.is_noclip {
        ObserverMotion::Fly { forward, right, up: command.vertical.signum() }
    } else if has_body {
        ObserverMotion::Steer { forward, right, jump: command.is_jumping && settled }
    } else {
        ObserverMotion::Still
    };
    ObserverPlan { modes: next, body, motion }
}

/// The same command given twice brings the observer back to its modes; when it toggles noclip,
/// the second frame takes away exactly the body the first granted, or grants back the one it took.
pub proof fn law_toggles_undo(modes: ObserverModes, command: ObserverCommand, has_body: bool, settled: bool)
    ensures
        ({
            let first = observer_plan(modes, command, has_body, settled);
            let second = observer_plan(first.modes, command, has_body, settled);
            &&& second.modes == modes
            &&& (first.body == BodyChange::Insert <==> second.body == BodyChange::Remove)
            &&& (first.body == BodyChange::Remove <==> second.body == BodyChange::Insert)
        }),
{
}

} // verus!
