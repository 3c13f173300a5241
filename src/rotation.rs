//! The turn that brings a photo upright, from its EXIF Orientation.

use vstd::prelude::*;

verus! {

/// A clockwise turn by a multiple of 90 degrees; `Upright` is none.
#[derive(Clone, Copy, Debug, PartialEq, Eq, Structural)]
pub enum Rotation {
    Upright,
    Quarter,
    Half,
    ThreeQuarters,
}

/// The turn for an Orientation: 3 is a half turn, 6 a quarter turn, 8 three
/// quarters. Mirrored orientations, and an absent one, get no turn.
pub open spec fn rotation_of(orientation: Option<u16>) -> Rotation {
    match orientation {
        Some(3) => Rotation::Half,
        Some(6) => Rotation::Quarter,
        Some(8) => Rotation::ThreeQuarters,
        _ => Rotation::Upright,
    }
}

/// The clockwise turn that shows a photo of the given Orientation upright.
pub fn rotation_for(orientation: Option<u16>) -> (r: Rotation)
    ensures
        r == rotation_of(orientation),
{
    match orientation {
        Some(3) => Rotation::Half,
        Some(6) => Rotation::Quarter,
        Some(8) => Rotation::ThreeQuarters,
        _ => Rotation::Upright,
    }
}

} // verus!
