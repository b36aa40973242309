//! A wrapper that shifts its child by a fixed offset.

use vstd::prelude::*;
use crate::hittable::Hittable;
use crate::vec3::Vec3;

verus! {

pub struct Translate {
    pub ptr: Box<Hittable>,
    pub offset: Vec3,
}

impl Translate {
    pub fn new(ptr: Box<Hittable>, offset: Vec3) -> (s: Translate)
        ensures
            s.ptr == ptr,
            s.offset == offset,
    {
        Translate { ptr, offset }
    }
}

} // verus!
