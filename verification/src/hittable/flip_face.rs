//! A wrapper that inverts the front-face flag of its child's hits.

use vstd::prelude::*;
use crate::hittable::Hittable;

verus! {

pub struct FlipFace {
    pub ptr: Box<Hittable>,
}

impl FlipFace {
    pub fn new(ptr: Box<Hittable>) -> (s: FlipFace)
        ensures
            s.ptr == ptr,
    {
        FlipFace { ptr }
    }
}

} // verus!
