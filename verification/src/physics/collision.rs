//! Collision volumes.

use vstd::prelude::*;

use crate::math::Vec3;

verus! {

/// An axis-aligned bounding box around an entity.
#[derive(Clone, Copy, PartialEq, Eq, Structural, Debug)]
pub struct CollisionComponent {
    pub mins: Vec3,
    pub maxes: Vec3,
}

impl CollisionComponent {
    /// A box spanning `mins` to `maxes`.
    pub fn new(mins: Vec3, maxes: Vec3) -> (r: CollisionComponent)
        ensures
            r == (CollisionComponent { mins, maxes }),
    {
        CollisionComponent { mins, maxes }
    }
}

} // verus!
