//! The in-memory raster: a dense, row-major 2D grid of RGB pixels.

use vstd::prelude::*;

use crate::color::Rgb;

verus! {

/// A width x height grid of RGB pixels, stored row-major: the pixel at
/// column `x` and row `y` lives at index `y * width + x`. Every coordinate
/// in bounds has a defined pixel; there are no sparse holes.
pub struct Raster {
    width: usize,
    height: usize,
    pixels: Vec<Rgb>,
}

impl Raster {
    /// The structural invariant: the pixel store is exactly dense, one
    /// pixel per in-bounds coordinate.
    pub open spec fn wf(self) -> bool {
        self.spec_pixels().len() == self.spec_width() * self.spec_height()
    }

    pub closed spec fn spec_width(self) -> int {
        self.width as int
    }

    pub closed spec fn spec_height(self) -> int {
        self.height as int
    }

    /// The pixels as a flat row-major sequence.
    pub closed spec fn spec_pixels(self) -> Seq<Rgb> {
        self.pixels@
    }

    /// The pixel at column `x`, row `y`.
    pub open spec fn spec_pixel(self, x: int, y: int) -> Rgb {
        self.spec_pixels()[y * self.spec_width() + x]
    }

    /// Make a raster filled with one color. The pixel count must fit in
    /// `usize`, a machine limit on any dense in-memory raster.
    pub fn new(width: usize, height: usize, fill: Rgb) -> (r: Raster)
        requires
            width * height <= usize::MAX,
        ensures
            r.wf(),
            r.spec_width() == width,
            r.spec_height() == height,
            r.spec_pixels() =~= Seq::new((width * height) as nat, |i: int| fill),
    {
        let n = width * height;
        let mut pixels: Vec<Rgb> = Vec::new();
        let mut i: usize = 0;
        while i < n
            invariant
                i <= n,
                pixels@ =~= Seq::new(i as nat, |j: int| fill),
            decreases n - i,
        {
            pixels.push(fill);
            i = i + 1;
        }
        Raster { width, height, pixels }
    }

    /// Assemble a raster from a flat row-major pixel vector whose length
    /// matches the dimensions exactly.
    pub fn from_pixels(width: usize, height: usize, pixels: Vec<Rgb>) -> (r: Raster)
        requires
            pixels@.len() == width * height,
        ensures
            r.wf(),
            r.spec_width() == width,
            r.spec_height() == height,
            r.spec_pixels() == pixels@,
    {
        Raster { width, height, pixels }
    }

    /// Assemble a raster from a flat row-major pixel vector, checking the
    /// length: returns the raster exactly when the vector is dense for the
    /// given dimensions, and `None` otherwise.
    pub fn try_from_pixels(width: usize, height: usize, pixels: Vec<Rgb>) -> (r: Option<Raster>)
        ensures
            pixels@.len() == width * height ==> (r matches Some(ras) && ras.wf()
                && ras.spec_width() == width && ras.spec_height() == height
                && ras.spec_pixels() == pixels@),
            pixels@.len() != width * height ==> r is None,
    {
        let len = pixels.len();
        match width.checked_mul(height) {
            Some(n) => {
                if len == n {
                    Some(Raster { width, height, pixels })
                } else {
                    None
                }
            },
            None => {
                // The pixel count overflows usize, so no vector can match it.
                None
            },
        }
    }

    /// The raster's width in pixels.
    pub fn width(&self) -> (w: usize)
        ensures
            w == self.spec_width(),
    {
        self.width
    }

    /// The raster's height in pixels.
    pub fn height(&self) -> (h: usize)
        ensures
            h == self.spec_height(),
    {
        self.height
    }

    /// Read the pixel at column `x`, row `y`.
    pub fn get(&self, x: usize, y: usize) -> (p: Rgb)
        requires
            self.wf(),
            x < self.spec_width(),
            y < self.spec_height(),
        ensures
            p == self.spec_pixel(x as int, y as int),
    {
        let n = self.pixels.len();
        proof {
            lemma_row_major_index_in_range(
                self.width as int, self.height as int, x as int, y as int);
        }
        assert(y * self.width + x < n);
        self.pixels[y * self.width + x]
    }

    /// Overwrite the pixel at column `x`, row `y`.
    pub fn set(&mut self, x: usize, y: usize, p: Rgb)
        requires
            old(self).wf(),
            x < old(self).spec_width(),
            y < old(self).spec_height(),
        ensures
            final(self).wf(),
            final(self).spec_width() == old(self).spec_width(),
            final(self).spec_height() == old(self).spec_height(),
            final(self).spec_pixels()
                == old(self).spec_pixels().update(y * old(self).spec_width() + x, p),
    {
        let n = self.pixels.len();
        proof {
            lemma_row_major_index_in_range(
                self.width as int, self.height as int, x as int, y as int);
        }
        assert(y * self.width + x < n);
        let i = y * self.width + x;
        self.pixels.set(i, p);
    }

    /// The number of pixels.
    pub fn len(&self) -> (n: usize)
        ensures
            n == self.spec_pixels().len(),
    {
        self.pixels.len()
    }

    /// Read the pixel at flat row-major index `i`.
    pub fn get_at(&self, i: usize) -> (p: Rgb)
        requires
            i < self.spec_pixels().len(),
        ensures
            p == self.spec_pixels()[i as int],
    {
        self.pixels[i]
    }

    /// Overwrite the pixel at flat row-major index `i`.
    pub fn set_at(&mut self, i: usize, p: Rgb)
        requires
            i < old(self).spec_pixels().len(),
        ensures
            final(self).wf() == old(self).wf(),
            final(self).spec_width() == old(self).spec_width(),
            final(self).spec_height() == old(self).spec_height(),
            final(self).spec_pixels() == old(self).spec_pixels().update(i as int, p),
    {
        self.pixels.set(i, p);
    }

    /// Borrow the flat row-major pixel store.
    pub fn pixels(&self) -> (v: &Vec<Rgb>)
        ensures
            v@ == self.spec_pixels(),
    {
        &self.pixels
    }
}

/// A row-major index `y * w + x` of an in-bounds coordinate is in bounds of
/// the flat store of length `w * h`.
pub proof fn lemma_row_major_index_in_range(w: int, h: int, x: int, y: int)
    requires
        0 <= x < w,
        0 <= y < h,
    ensures
        0 <= y * w + x < w * h,
{
    assert(y * w + x < w * h) by (nonlinear_arith)
        requires 0 <= x < w && 0 <= y < h;
    assert(y * w + x >= 0) by (nonlinear_arith)
        requires 0 <= x && 0 <= y && w > 0;
}

} // verus!
