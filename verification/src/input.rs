//! The player's input reduced to what the game decides on: which way each axis points.
use vstd::prelude::*;

verus! {

/// Which way one axis of the player's input points.
#[derive(Debug, Clone, Copy, PartialEq, Eq, Structural)]
pub enum AxisInput {
    Negative,
    Neutral,
    Positive,
}

impl AxisInput {
    /// -1, 0 or 1 for a negative, neutral or positive axis.
    pub open spec fn sign(self) -> int {
        match self {
            AxisInput::Negative => -1,
            AxisInput::Neutral => 0,
            AxisInput::Positive => 1,
        }
    }

    /// The axis a pair of held controls gives: one way when only that way's control is held,
    /// neutral when neither or both are.
    pub fn from_held(negative: bool, positive: bool) -> (r: Self)
        ensures
            r == (if negative && !positive {
                AxisInput::Negative
            } else if positive && !negative {
                AxisInput::Positive
            } else {
                AxisInput::Neutral
            }),
    {
        if negative && !positive {
            AxisInput::Negative
        } else if positive && !negative {
            AxisInput::Positive
        } else {
            AxisInput::Neutral
        }
    }

    /// -1, 0 or 1 for a negative, neutral or positive axis.
    pub fn signum(self) -> (r: i8)
        ensures
            r == self.sign(),
    {
        match self {
            AxisInput::Negative => -1,
            AxisInput::Neutral => 0,
            AxisInput::Positive => 1,
        }
    }
}

} // verus!
