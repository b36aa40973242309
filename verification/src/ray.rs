//! Parametric rays with a time value for motion blur.

use vstd::prelude::*;
use crate::math::{SCALE, TMAX, div_floor};
use crate::vec3::Vec3;

verus! {

/// A ray `origin + t * direction / SCALE`, tagged with an emission time.
#[derive(Clone, Copy, Debug)]
pub struct Ray {
    pub origin: Vec3,
    pub direction: Vec3,
    pub time: i64,
}

impl Ray {
    /// The origin may sit somewhat outside the stored-coordinate range
    /// (wrappers shift rays before delegating); the direction is bounded by
    /// twice that range.
    pub open spec fn wf(self) -> bool {
        self.origin.bounded(0x3000_0000) && self.direction.bounded(0x200_0000)
            && -TMAX <= self.time <= TMAX
    }

    pub fn new(origin: Vec3, direction: Vec3, time: i64) -> (r: Ray)
        ensures
            r == (Ray { origin, direction, time }),
    {
        Ray { origin, direction, time }
    }

    /// One component of the point the ray reaches at parameter `t`.
    pub open spec fn at_axis(self, t: int, axis: int) -> int {
        self.origin.axis_spec(axis) + (t * self.direction.axis_spec(axis)) / (SCALE as int)
    }

    pub fn at(&self, t: i64) -> (p: Vec3)
        requires
            self.wf(),
            -TMAX <= t <= TMAX,
        ensures
            p.x == self.at_axis(t as int, 0),
            p.y == self.at_axis(t as int, 1),
            p.z == self.at_axis(t as int, 2),
            p.bounded(0x200_0000_0000_0000),
    {
        proof {
            crate::math::lemma_mul_bound(t as int, self.direction.x as int, TMAX as int,
                0x200_0000);
            crate::math::lemma_mul_bound(t as int, self.direction.y as int, TMAX as int,
                0x200_0000);
            crate::math::lemma_mul_bound(t as int, self.direction.z as int, TMAX as int,
                0x200_0000);
        }
        let x = self.origin.x + div_floor(t * self.direction.x, SCALE);
        let y = self.origin.y + div_floor(t * self.direction.y, SCALE);
        let z = self.origin.z + div_floor(t * self.direction.z, SCALE);
        Vec3 { x, y, z }
    }
}

} // verus!
