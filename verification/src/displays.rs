//! Core data types for describing display state: rotations, points,
//! mode-matching patterns, and the errors that display operations report.

use vstd::prelude::*;

verus! {

/// A display rotation.  Only the cardinal angles are supported.
#[derive(Clone, Copy, Debug, Hash, PartialEq, Eq, Structural)]
pub enum Rotation {
    Zero,
    Ninety,
    OneEighty,
    TwoSeventy,
}

impl Rotation {
    /// The angle of this rotation in degrees.
    pub open spec fn spec_degrees(self) -> u32 {
        match self {
            Rotation::Zero => 0,
            Rotation::Ninety => 90,
            Rotation::OneEighty => 180,
            Rotation::TwoSeventy => 270,
        }
    }

    /// Return the angle of this rotation in degrees.
    pub fn degrees(self) -> (d: u32)
        ensures
            d == self.spec_degrees(),
    {
        match self {
            Rotation::Zero => 0,
            Rotation::Ninety => 90,
            Rotation::OneEighty => 180,
            Rotation::TwoSeventy => 270,
        }
    }

    /// Construct a rotation from an angle in degrees.  Returns `None` for
    /// any angle other than the four cardinal angles.
    pub fn from_degrees(d: u32) -> (r: Option<Rotation>)
        ensures
            match r {
                Some(rot) => rot.spec_degrees() == d,
                None => forall|rot: Rotation| rot.spec_degrees() != d,
            },
    {
        if d == 0 {
            Some(Rotation::Zero)
        } else if d == 90 {
            Some(Rotation::Ninety)
        } else if d == 180 {
            Some(Rotation::OneEighty)
        } else if d == 270 {
            Some(Rotation::TwoSeventy)
        } else {
            assert forall|rot: Rotation| rot.spec_degrees() != d by {
                match rot {
                    Rotation::Zero => {},
                    Rotation::Ninety => {},
                    Rotation::OneEighty => {},
                    Rotation::TwoSeventy => {},
                }
            }
            None
        }
    }
}

/// A generic point abstraction.  It is also used to represent the extents
/// of a 2D rectangle, as is common in many graphics libraries.
#[derive(Clone, Copy, Debug, Hash, PartialEq, Eq, Structural)]
pub struct Point {
    /// The location along the X-axis, or a width.
    pub x: i64,
    /// The location along the Y-axis, or a height.
    pub y: i64,
}

/// The errors reported by display inspection and configuration operations.
#[derive(Debug)]
pub enum Error {
    /// Reported when attempting to reference a display by an invalid UUID.
    /// The argument is the UUID.
    UnknownUUID(String),
    /// Reported when a configuration request for a given display is made
    /// against a transaction more than once.  The argument is the UUID.
    DuplicateConfiguration(String),
    /// Reported when a configuration operation is attempted on a
    /// transaction that is no longer open.
    InvalidTransactionState,
    /// Reported if there is some underlying locking error.  The argument is
    /// the error message.
    Poisoned(String),
    /// A failure arising from interaction with the underlying operating
    /// system.  The argument is the error message.
    Internal(String),
    /// Reported when a requested brightness, in thousandths, lies outside
    /// the allowed range.
    InvalidBrightness(i32),
}

/// A `DisplayModePattern` specifies a space of possible display modes.
/// A field that is `None` matches any mode.
#[derive(Clone, Copy, Debug, PartialEq, Eq, Structural)]
pub struct DisplayModePattern {
    /// Should this pattern match on whether the display mode is scaled?
    pub scaled: Option<bool>,
    /// Should the pattern match on the color depth of the display mode?
    pub color_depth: Option<usize>,
    /// Should this pattern match on the frequency of the display mode?
    pub frequency: Option<usize>,
    /// Should the pattern match on the resolution of the display mode?
    pub extents: Option<Point>,
}

impl DisplayModePattern {
    /// A pattern that places no constraint on any field, and so matches
    /// every display mode.
    pub open spec fn is_unconstrained(self) -> bool {
        self.scaled is None && self.color_depth is None && self.frequency is None
            && self.extents is None
    }
}

} // verus!
