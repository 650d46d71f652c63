//! A behaviour that shows a decoded bitmap, stretched over the node.
use vstd::prelude::*;
use crate::behaviour::{Behaviour, RenderableParams};
use crate::color::{Rgba, transparent_spec};
use crate::frame::Img;
use crate::geometry::{Point, ONE, clamp_spec};

verus! {

/// A node that samples a fixed image: u runs left to right across the image
/// and v bottom to top; the frame painted so far is ignored.
pub struct RendreableImage {
    pub image: Img,
}

/// The image pixel shown at `uv`: each coordinate is limited to `[0, ONE]`,
/// scaled to the image and rounded down, and the last row and column stand
/// in for `1.0`. An empty image shows nothing.
pub open spec fn sample_spec(image: Img, uv: Point) -> Rgba {
    let w = image.spec_width() as int;
    let h = image.spec_height() as int;
    if w == 0 || h == 0 {
        transparent_spec()
    } else {
        let x = clamp_spec(clamp_spec(uv.x as int, 0, ONE as int) * w / (ONE as int), 0, w - 1);
        let y = clamp_spec((ONE - clamp_spec(uv.y as int, 0, ONE as int)) * h / (ONE as int), 0, h - 1);
        image@[y * w + x]
    }
}

impl RendreableImage {
    pub fn new(image: Img) -> (r: RendreableImage)
        requires
            image.wf(),
        ensures
            r.image == image,
    {
        RendreableImage { image }
    }

    /// The image pixel shown at `uv`.
    pub fn sample(&self, uv: Point) -> (c: Rgba)
        requires
            self.image.wf(),
        ensures
            c == sample_spec(self.image, uv),
    {
        let w = self.image.width();
        let h = self.image.height();
        if w == 0 || h == 0 {
            return Rgba::transparent();
        }
        let ux: i128 = if uv.x < 0 { 0 } else if uv.x > ONE { ONE as i128 } else { uv.x as i128 };
        let uy: i128 = if uv.y < 0 { 0 } else if uv.y > ONE { ONE as i128 } else { uv.y as i128 };
        assert(0 <= ux * w <= 0x1_0000 * 0xffff_ffff_ffff_ffff) by (nonlinear_arith)
            requires
                0 <= ux <= 0x1_0000,
                0 <= w <= 0xffff_ffff_ffff_ffff,
        ;
        assert(0 <= (ONE - uy) * h <= 0x1_0000 * 0xffff_ffff_ffff_ffff) by (nonlinear_arith)
            requires
                0 <= uy <= 0x1_0000,
                0 <= h <= 0xffff_ffff_ffff_ffff,
        ;
        let sx: i128 = ux * (w as i128) / (ONE as i128);
        let sy: i128 = ((ONE as i128) - uy) * (h as i128) / (ONE as i128);
        let x: usize = if sx > (w - 1) as i128 { w - 1 } else { sx as usize };
        let y: usize = if sy > (h - 1) as i128 { h - 1 } else { sy as usize };
        self.image.get_pixel(x, y)
    }
}

impl Behaviour for RendreableImage {
    open spec fn update_spec(&self, params: RenderableParams, time: u64, next: Self, next_params: RenderableParams) -> bool {
        next == *self && next_params == params
    }

    open spec fn shade_spec(&self, frame: Seq<Rgba>, uv: Point, time: u64) -> Rgba {
        if self.image.wf() {
            sample_spec(self.image, uv)
        } else {
            transparent_spec()
        }
    }

    /// The image stays as it is from frame to frame.
    fn update(&mut self, params: &mut RenderableParams, time: u64) {
    }

    fn duplicate(&self) -> (r: Self) {
        if self.image.is_valid() {
            RendreableImage { image: self.image.snapshot() }
        } else {
            RendreableImage { image: Img::new(0, 0) }
        }
    }

    fn shade(&self, frame: &Img, uv: Point, time: u64) -> (c: Rgba) {
        if self.image.is_valid() {
            self.sample(uv)
        } else {
            Rgba::transparent()
        }
    }
}

} // verus!
