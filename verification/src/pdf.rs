//! Probability-density objects used for importance sampling.

pub mod cosine;
pub mod hittable;
pub mod mixture;

use vstd::prelude::*;
use crate::math::CMAX;
use crate::vec3::Vec3;
use cosine::CosinePdf;
use hittable::HittablePdf;
use mixture::MixturePdf;

verus! {

/// Every density a bounce can sample a direction from.
pub enum Pdf<'a> {
    Cosine(CosinePdf),
    Shape(HittablePdf<'a>),
    Mix(Box<MixturePdf<'a>>),
}

/// The density a sampler assigns to a direction: the cosine formula, the
/// target shape's own density, or the average of a mixture's halves.
pub open spec fn pdf_density_spec(p: Pdf, direction: Vec3) -> int
    decreases p,
{
    match p {
        Pdf::Cosine(c) => cosine::cosine_density_spec(c.uvw.axis_w, direction),
        Pdf::Shape(s) => crate::hittable::pdf_value_spec(*s.ptr, s.origin, direction),
        Pdf::Mix(m) => (pdf_density_spec(m.p0, direction)
            + pdf_density_spec(m.p1, direction)) / 2,
    }
}

impl<'a> Pdf<'a> {
    pub open spec fn wf(self) -> bool
        decreases self,
    {
        match self {
            Pdf::Cosine(p) => p.wf(),
            Pdf::Shape(p) => p.ptr.wf() && p.origin.in_range(),
            Pdf::Mix(m) => m.p0.wf() && m.p1.wf(),
        }
    }

    /// The density assigned to `direction`: exactly `pdf_density_spec`.
    pub fn value(&self, direction: Vec3) -> (r: i64)
        requires
            self.wf(),
            direction.bounded(0x200_0000),
        ensures
            0 <= r <= CMAX,
            r == pdf_density_spec(*self, direction),
        decreases *self,
    {
        match self {
            Pdf::Cosine(p) => p.value(direction),
            Pdf::Shape(p) => p.value(direction),
            Pdf::Mix(m) => m.value(direction),
        }
    }

    /// Draw a direction from the density.
    pub fn generate(&self) -> (v: Vec3)
        requires
            self.wf(),
        ensures
            v.bounded(0x200_0000),
        decreases *self,
    {
        match self {
            Pdf::Cosine(p) => p.generate(),
            Pdf::Shape(p) => p.generate(),
            Pdf::Mix(m) => m.generate(),
        }
    }
}

} // verus!
