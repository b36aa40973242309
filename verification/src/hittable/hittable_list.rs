//! An ordered aggregate of scene nodes scanned linearly.

use vstd::prelude::*;
use crate::hittable::Hittable;

verus! {

pub struct HittableList {
    pub objects: Vec<Hittable>,
}

impl HittableList {
    pub fn new() -> (s: HittableList)
        ensures
            s.objects@.len() == 0,
    {
        HittableList { objects: Vec::new() }
    }

    pub fn add(&mut self, object: Hittable)
        ensures
            final(self).objects@ == old(self).objects@.push(object),
    {
        self.objects.push(object);
    }

    pub fn children(&self) -> (r: &Vec<Hittable>)
        ensures
            r == &self.objects,
    {
        &self.objects
    }
}

} // verus!
