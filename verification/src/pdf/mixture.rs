//! An even mixture of two densities.

use vstd::prelude::*;
use crate::math::{CMAX, div_floor};
use crate::pdf::Pdf;
use crate::rng::random_index;
use crate::vec3::Vec3;

verus! {

/// Half of each component: the density is the average of the two, and
/// each draw comes from a fair coin's pick of the two.
pub struct MixturePdf<'a> {
    pub p0: Pdf<'a>,
    pub p1: Pdf<'a>,
}

impl<'a> MixturePdf<'a> {
    pub open spec fn wf(self) -> bool {
        self.p0.wf() && self.p1.wf()
    }

    pub fn new(p0: Pdf<'a>, p1: Pdf<'a>) -> (m: MixturePdf<'a>)
        ensures
            m.p0 == p0,
            m.p1 == p1,
    {
        MixturePdf { p0, p1 }
    }

    /// The averaged density: exactly half of each component's
    /// `pdf_density_spec`, so any direction the mixture generated
    /// evaluates to a nonnegative usable weight.
    pub fn value(&self, direction: Vec3) -> (r: i64)
        requires
            self.wf(),
            direction.bounded(0x200_0000),
        ensures
            0 <= r <= CMAX,
            r == (crate::pdf::pdf_density_spec(self.p0, direction)
                + crate::pdf::pdf_density_spec(self.p1, direction)) / 2,
        decreases *self,
    {
        let v0 = self.p0.value(direction);
        let v1 = self.p1.value(direction);
        div_floor(v0 + v1, 2)
    }

    /// Flip a fair coin and draw from the chosen component.
    pub fn generate(&self) -> (v: Vec3)
        requires
            self.wf(),
        ensures
            v.bounded(0x200_0000),
        decreases *self,
    {
        if random_index(2) == 0 {
            self.p0.generate()
        } else {
            self.p1.generate()
        }
    }
}

} // verus!
