//! The frame buffer: a grid of RGBA pixels stored row by row.
use vstd::prelude::*;
use crate::color::{Rgba, transparent_spec};

verus! {

/// A `width` by `height` grid of pixels, row-major, starting at the top-left.
pub struct Img {
    width: usize,
    height: usize,
    pixels: Vec<Rgba>,
}

/// A sequence of `n` transparent pixels.
pub open spec fn blank_pixels(n: nat) -> Seq<Rgba> {
    Seq::new(n, |k: int| transparent_spec())
}

impl View for Img {
    type V = Seq<Rgba>;

    closed spec fn view(&self) -> Seq<Rgba> {
        self.pixels@
    }
}

impl Img {
    pub closed spec fn spec_width(&self) -> nat {
        self.width as nat
    }

    pub closed spec fn spec_height(&self) -> nat {
        self.height as nat
    }

    /// The pixel count matches the dimensions.
    pub open spec fn wf(&self) -> bool {
        &&& self@.len() == self.spec_width() * self.spec_height()
        &&& self.spec_width() * self.spec_height() <= usize::MAX
    }

    /// Where the pixel at column `x` and row `y` is stored.
    pub open spec fn index_of(&self, x: int, y: int) -> int {
        y * self.spec_width() + x
    }

    /// A transparent image of the given size.
    pub fn new(width: usize, height: usize) -> (img: Img)
        requires
            width * height <= usize::MAX,
        ensures
            img.wf(),
            img.spec_width() == width,
            img.spec_height() == height,
            img@ == blank_pixels((width * height) as nat),
    {
        let n: usize = width * height;
        let mut pixels: Vec<Rgba> = Vec::new();
        let mut i: usize = 0;
        while i < n
            invariant
                i <= n,
                pixels@ == blank_pixels(i as nat),
            decreases n - i,
        {
            pixels.push(Rgba::transparent());
            i = i + 1;
            assert(pixels@ =~= blank_pixels(i as nat));
        }
        Img { width, height, pixels }
    }

    /// Whether the pixel count matches the dimensions.
    pub fn is_valid(&self) -> (b: bool)
        ensures
            b == self.wf(),
    {
        match self.width.checked_mul(self.height) {
            Some(n) => n == self.pixels.len(),
            None => false,
        }
    }

    pub fn width(&self) -> (w: usize)
        ensures
            w == self.spec_width(),
    {
        self.width
    }

    pub fn height(&self) -> (h: usize)
        ensures
            h == self.spec_height(),
    {
        self.height
    }

    pub fn pixels(&self) -> (p: &Vec<Rgba>)
        ensures
            p@ == self@,
    {
        &self.pixels
    }

    /// The pixel at column `x`, row `y`.
    pub fn get_pixel(&self, x: usize, y: usize) -> (c: Rgba)
        requires
            self.wf(),
            x < self.spec_width(),
            y < self.spec_height(),
        ensures
            c == self@[self.index_of(x as int, y as int)],
    {
        proof {
            lemma_index_in_grid(x as int, y as int, self.width as int, self.height as int);
        }
        self.pixels[y * self.width + x]
    }

    /// Replaces the pixel at column `x`, row `y`.
    pub fn set_pixel(&mut self, x: usize, y: usize, color: Rgba)
        requires
            old(self).wf(),
            x < old(self).spec_width(),
            y < old(self).spec_height(),
        ensures
            final(self).wf(),
            final(self).spec_width() == old(self).spec_width(),
            final(self).spec_height() == old(self).spec_height(),
            final(self)@ == old(self)@.update(old(self).index_of(x as int, y as int), color),
    {
        proof {
            lemma_index_in_grid(x as int, y as int, self.width as int, self.height as int);
        }
        let k: usize = y * self.width + x;
        self.pixels.set(k, color);
    }

    /// A copy of the image, pixel for pixel.
    pub fn snapshot(&self) -> (r: Img)
        requires
            self.wf(),
        ensures
            r.wf(),
            r@ == self@,
            r.spec_width() == self.spec_width(),
            r.spec_height() == self.spec_height(),
    {
        let mut pixels: Vec<Rgba> = Vec::new();
        let mut i: usize = 0;
        while i < self.pixels.len()
            invariant
                i <= self.pixels@.len(),
                pixels@ == self.pixels@.take(i as int),
            decreases self.pixels@.len() - i,
        {
            pixels.push(self.pixels[i]);
            i = i + 1;
            assert(pixels@ =~= self.pixels@.take(i as int));
        }
        assert(pixels@ =~= self.pixels@);
        Img { width: self.width, height: self.height, pixels }
    }
}

/// A cell of a `w` by `h` grid has an index below `w * h`.
pub proof fn lemma_index_in_grid(x: int, y: int, w: int, h: int)
    requires
        0 <= x < w,
        0 <= y < h,
    ensures
        0 <= y * w + x < w * h,
{
    assert(0 <= y * w) by (nonlinear_arith)
        requires
            0 <= y,
            0 <= w,
    ;
    assert(y * w + x < w * h) by (nonlinear_arith)
        requires
            0 <= x < w,
            0 <= y < h,
    ;
}

} // verus!
