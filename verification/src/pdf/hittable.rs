//! A density that samples directions toward a target shape.

use vstd::prelude::*;
use crate::hittable::Hittable;
use crate::math::CMAX;
use crate::vec3::Vec3;

verus! {

/// Directions from a fixed origin toward a target, weighted by the
/// target's own sampling density.
pub struct HittablePdf<'a> {
    pub origin: Vec3,
    pub ptr: &'a Hittable,
}

impl<'a> HittablePdf<'a> {
    pub fn new(ptr: &'a Hittable, origin: Vec3) -> (p: HittablePdf<'a>)
        ensures
            p.ptr == ptr,
            p.origin == origin,
    {
        HittablePdf { origin, ptr }
    }

    /// The target's density for `direction` from the stored origin:
    /// exactly the target's `pdf_value_spec`.
    pub fn value(&self, direction: Vec3) -> (r: i64)
        requires
            self.ptr.wf(),
            self.origin.in_range(),
            direction.bounded(0x200_0000),
        ensures
            0 <= r <= CMAX,
            r == crate::hittable::pdf_value_spec(*self.ptr, self.origin, direction),
    {
        self.ptr.pdf_value(self.origin, direction)
    }

    /// A direction drawn toward the target.
    pub fn generate(&self) -> (v: Vec3)
        requires
            self.ptr.wf(),
            self.origin.in_range(),
        ensures
            v.bounded(0x200_0000),
    {
        self.ptr.random(self.origin)
    }
}

} // verus!
