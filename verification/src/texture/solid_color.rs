//! A texture that is one color everywhere.

use vstd::prelude::*;
use crate::math::CMAX;
use crate::vec3::Vec3;

verus! {

#[derive(Clone, Copy, Debug)]
pub struct SolidColor {
    pub color_value: Vec3,
}

impl SolidColor {
    /// Channels are nonnegative and below the saturation cap.
    pub open spec fn wf(self) -> bool {
        0 <= self.color_value.x <= CMAX
            && 0 <= self.color_value.y <= CMAX
            && 0 <= self.color_value.z <= CMAX
    }

    pub fn new(color_value: Vec3) -> (t: SolidColor)
        ensures
            t.color_value == color_value,
    {
        SolidColor { color_value }
    }

    pub fn new_rgb(red: i64, green: i64, blue: i64) -> (t: SolidColor)
        ensures
            t.color_value == (Vec3 { x: red, y: green, z: blue }),
    {
        SolidColor { color_value: Vec3 { x: red, y: green, z: blue } }
    }

    pub fn value(&self) -> (c: Vec3)
        ensures
            c == self.color_value,
    {
        self.color_value
    }
}

} // verus!
