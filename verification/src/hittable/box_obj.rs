//! An axis-aligned box assembled from six rectangles.

use vstd::prelude::*;
use crate::hittable::Hittable;
use crate::hittable::aa_rect::{RECT_PAD, XyRect, XzRect, YzRect};
use crate::hittable::hittable_list::HittableList;
use crate::material::{Material, material_matches};
use crate::math::VMAX;
use crate::vec3::Vec3;

verus! {

pub struct BoxObj {
    pub min: Vec3,
    pub max: Vec3,
    pub sides: HittableList,
}

impl BoxObj {
    /// Assemble the six faces; every face shares the same material.
    pub fn new(min: Vec3, max: Vec3, mat: Material) -> (s: BoxObj)
        requires
            mat.wf(),
            -VMAX + RECT_PAD <= min.x,
            -VMAX + RECT_PAD <= min.y,
            -VMAX + RECT_PAD <= min.z,
            max.x <= VMAX - RECT_PAD,
            max.y <= VMAX - RECT_PAD,
            max.z <= VMAX - RECT_PAD,
            min.x < max.x,
            min.y < max.y,
            min.z < max.z,
        ensures
            s.min == min,
            s.max == max,
            s.sides.objects@.len() == 6,
            forall|i: int| 0 <= i < 6 ==> (#[trigger] s.sides.objects@[i]).wf(),
            forall|i: int| 0 <= i < 6
                ==> (#[trigger] s.sides.objects@[i]).bbox_spec() is Some,
            forall|i: int| 0 <= i < 6 ==> (#[trigger] s.sides.objects@[i]).deterministic(),
            s.sides.objects@[0] matches Hittable::XyRect(rc) && rc.x0 == min.x
                && rc.x1 == max.x && rc.y0 == min.y && rc.y1 == max.y && rc.k == max.z
                && material_matches(mat, rc.mat),
            s.sides.objects@[1] matches Hittable::XyRect(rc) && rc.x0 == min.x
                && rc.x1 == max.x && rc.y0 == min.y && rc.y1 == max.y && rc.k == min.z
                && material_matches(mat, rc.mat),
            s.sides.objects@[2] matches Hittable::XzRect(rc) && rc.x0 == min.x
                && rc.x1 == max.x && rc.z0 == min.z && rc.z1 == max.z && rc.k == max.y
                && material_matches(mat, rc.mat),
            s.sides.objects@[3] matches Hittable::XzRect(rc) && rc.x0 == min.x
                && rc.x1 == max.x && rc.z0 == min.z && rc.z1 == max.z && rc.k == min.y
                && material_matches(mat, rc.mat),
            s.sides.objects@[4] matches Hittable::YzRect(rc) && rc.y0 == min.y
                && rc.y1 == max.y && rc.z0 == min.z && rc.z1 == max.z && rc.k == max.x
                && material_matches(mat, rc.mat),
            s.sides.objects@[5] matches Hittable::YzRect(rc) && rc.y0 == min.y
                && rc.y1 == max.y && rc.z0 == min.z && rc.z1 == max.z && rc.k == min.x
                && material_matches(mat, rc.mat),
    {
        let mut sides = HittableList::new();
        sides.add(Hittable::XyRect(XyRect::new(min.x, max.x, min.y, max.y, max.z, mat.dup())));
        sides.add(Hittable::XyRect(XyRect::new(min.x, max.x, min.y, max.y, min.z, mat.dup())));
        sides.add(Hittable::XzRect(XzRect::new(min.x, max.x, min.z, max.z, max.y, mat.dup())));
        sides.add(Hittable::XzRect(XzRect::new(min.x, max.x, min.z, max.z, min.y, mat.dup())));
        sides.add(Hittable::YzRect(YzRect::new(min.y, max.y, min.z, max.z, max.x, mat.dup())));
        proof {
            crate::material::lemma_material_matches_reflexive(mat);
        }
        sides.add(Hittable::YzRect(YzRect::new(min.y, max.y, min.z, max.z, min.x, mat)));
        BoxObj { min, max, sides }
    }
}

} // verus!
