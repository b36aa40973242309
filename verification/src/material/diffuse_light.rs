//! The emissive material: no scattering, one-sided emission.

use vstd::prelude::*;
use crate::texture::Texture;
use crate::texture::solid_color::SolidColor;
use crate::vec3::Vec3;

verus! {

pub struct DiffuseLight {
    pub emit: Texture,
}

impl DiffuseLight {
    pub open spec fn wf(self) -> bool {
        self.emit.wf()
    }

    pub fn new(emit: Texture) -> (m: DiffuseLight)
        ensures
            m.emit == emit,
    {
        DiffuseLight { emit }
    }

    pub fn new_color(emit: Vec3) -> (m: DiffuseLight)
        ensures
            m.emit == Texture::Solid(SolidColor { color_value: emit }),
    {
        DiffuseLight { emit: Texture::Solid(SolidColor { color_value: emit }) }
    }
}

} // verus!
