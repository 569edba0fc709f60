//! Basic entity-attached component payloads.

use vstd::prelude::*;

use crate::math::Vec3;

verus! {

/// A position in the world.
#[derive(Clone, Copy, PartialEq, Eq, Structural, Debug)]
pub struct PositionComponent {
    pub pos: Vec3,
}

} // verus!
