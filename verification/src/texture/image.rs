//! A texture backed by a decoded raster image, sampled by clamped lookup.

use vstd::prelude::*;
use crate::math::{SCALE, clamp64, div_floor, min64};
use crate::vec3::Vec3;

verus! {

/// Packed rows of RGB bytes, three per pixel.
pub struct ImageTexture {
    pub data: Vec<u8>,
    pub width: u32,
    pub height: u32,
}

impl ImageTexture {
    pub open spec fn wf(self) -> bool {
        1 <= self.width <= 0x8000
            && 1 <= self.height <= 0x8000
            && self.data@.len() == 3 * self.width * self.height
    }

    /// The texel row and column the clamped coordinates select.
    pub open spec fn col_spec(self, u: int) -> int {
        let i = (u * self.width) / (SCALE as int);
        if i <= self.width - 1 { i } else { self.width - 1 }
    }

    pub open spec fn row_spec(self, v: int) -> int {
        let j = ((SCALE - v) * self.height) / (SCALE as int);
        if j <= self.height - 1 { j } else { self.height - 1 }
    }

    /// A channel byte rescaled to the fixed-point color range by
    /// `byte * SCALE / 255`.
    pub open spec fn channel_spec(self, idx: int) -> int {
        (self.data@[idx] * SCALE) / 255
    }

    pub fn new(data: Vec<u8>, width: u32, height: u32) -> (t: ImageTexture)
        requires
            1 <= width <= 0x8000,
            1 <= height <= 0x8000,
            data@.len() == 3 * width * height,
        ensures
            t.data == data,
            t.width == width,
            t.height == height,
            t.wf(),
    {
        ImageTexture { data, width, height }
    }

    /// Sample the image: coordinates are clamped, `v` runs bottom-up, and
    /// each byte is rescaled to fixed point.
    pub fn value(&self, u: i64, v: i64) -> (c: Vec3)
        requires
            self.wf(),
        ensures
            ({
                let uc = if u < 0 { 0int } else if u > SCALE { SCALE as int } else { u as int };
                let vc = if v < 0 { 0int } else if v > SCALE { SCALE as int } else { v as int };
                let idx = 3 * (self.row_spec(vc) * self.width + self.col_spec(uc));
                c.x == self.channel_spec(idx)
                    && c.y == self.channel_spec(idx + 1)
                    && c.z == self.channel_spec(idx + 2)
            }),
            0 <= c.x <= SCALE,
            0 <= c.y <= SCALE,
            0 <= c.z <= SCALE,
    {
        let uc = clamp64(u, 0, SCALE);
        let vc = SCALE - clamp64(v, 0, SCALE);
        let w = self.width as i64;
        let h = self.height as i64;
        proof {
            crate::math::lemma_mul_bound(uc as int, w as int, 1024, 0x8000);
            crate::math::lemma_mul_bound(vc as int, h as int, 1024, 0x8000);
            crate::math::lemma_div_bound(uc * w, 0x8000, 1024);
            crate::math::lemma_div_bound(vc * h, 0x8000, 1024);
        }
        let i = min64(div_floor(uc * w, SCALE), w - 1);
        let j = min64(div_floor(vc * h, SCALE), h - 1);
        proof {
            assert(0 <= (uc as int) * (w as int)) by (nonlinear_arith)
                requires
                    uc >= 0,
                    w >= 1,
            ;
            assert(0 <= (vc as int) * (h as int)) by (nonlinear_arith)
                requires
                    vc >= 0,
                    h >= 1,
            ;
            assert(j * w + i <= (h - 1) * w + (w - 1) && 0 <= j * w
                && (h - 1) * w + (w - 1) < h * w && h * w <= 0x4000_0000) by (nonlinear_arith)
                requires
                    0 <= i <= w - 1,
                    0 <= j <= h - 1,
                    1 <= w <= 0x8000,
                    1 <= h <= 0x8000,
            ;
            assert(3 * ((h as int) * (w as int)) == 3 * self.width * self.height)
                by (nonlinear_arith)
                requires
                    h == self.height,
                    w == self.width,
            ;
            assert(3 * ((h as int) * (w as int)) == self.data@.len());
        }
        proof {
            let uci: int = if u < 0 { 0int } else if u > SCALE { SCALE as int } else { u as int };
            let vci: int = if v < 0 { 0int } else if v > SCALE { SCALE as int } else { v as int };
            assert(uc == uci);
            assert(vc == SCALE - vci);
            assert(i as int == self.col_spec(uci));
            assert(j as int == self.row_spec(vci));
        }
        let idx = (3 * (j * w + i)) as usize;
        let r = self.data[idx] as i64;
        let g = self.data[idx + 1] as i64;
        let b = self.data[idx + 2] as i64;
        proof {
            crate::math::lemma_div_bound(r * 1024, 1024, 255);
            crate::math::lemma_div_bound(g * 1024, 1024, 255);
            crate::math::lemma_div_bound(b * 1024, 1024, 255);
            assert(r * 1024 >= 0 && g * 1024 >= 0 && b * 1024 >= 0);
        }
        Vec3 {
            x: div_floor(r * 1024, 255),
            y: div_floor(g * 1024, 255),
            z: div_floor(b * 1024, 255),
        }
    }
}

} // verus!
