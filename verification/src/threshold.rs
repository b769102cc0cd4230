//! The threshold transform: map every pixel to pure black or pure white by
//! its luminance.

use vstd::prelude::*;

use crate::color::{black, white, Rgb};
use crate::raster::Raster;

verus! {

/// The luminance of a color on the 8-bit scale, by the standard sRGB luma
/// weighting (coefficients 2126, 7152, 722 out of 10000), with the integer
/// division rounding down. For a grey value (v, v, v) this is exactly v.
pub open spec fn luma(c: Rgb) -> int {
    (2126 * c.r + 7152 * c.g + 722 * c.b) / 10000
}

/// Where a single pixel goes: white when its luminance exceeds the 8-bit
/// midpoint 127, black otherwise.
pub open spec fn threshold_pixel(c: Rgb) -> Rgb {
    if luma(c) > 127 {
        white()
    } else {
        black()
    }
}

/// The threshold transform of a whole pixel sequence, pixel by pixel.
pub open spec fn threshold_seq(s: Seq<Rgb>) -> Seq<Rgb> {
    Seq::new(s.len(), |i: int| threshold_pixel(s[i]))
}

/// The luminance of a color, computed in exact integer arithmetic.
pub fn luma_value(c: Rgb) -> (l: u8)
    ensures
        l == luma(c),
{
    let weighted: u32 = 2126 * (c.r as u32) + 7152 * (c.g as u32) + 722 * (c.b as u32);
    assert(weighted / 10000 <= 255) by (nonlinear_arith)
        requires weighted <= 2126 * 255 + 7152 * 255 + 722 * 255;
    (weighted / 10000) as u8
}

/// Threshold the whole raster in place: every pixel becomes pure white when
/// its luminance exceeds 127, pure black otherwise. The dimensions do not
/// change.
pub fn threshold(r: &mut Raster)
    requires
        old(r).wf(),
    ensures
        final(r).wf(),
        final(r).spec_width() == old(r).spec_width(),
        final(r).spec_height() == old(r).spec_height(),
        final(r).spec_pixels() == threshold_seq(old(r).spec_pixels()),
{
    let ghost orig = r.spec_pixels();
    let n = r.len();
    let mut i: usize = 0;
    while i < n
        invariant
            i <= n,
            n == orig.len(),
            r.wf() == old(r).wf(),
            r.spec_width() == old(r).spec_width(),
            r.spec_height() == old(r).spec_height(),
            r.spec_pixels().len() == n,
            forall|j: int| 0 <= j < i ==> r.spec_pixels()[j] == threshold_pixel(orig[j]),
            forall|j: int| i <= j < n ==> r.spec_pixels()[j] == orig[j],
        decreases n - i,
    {
        let p = r.get_at(i);
        let l = luma_value(p);
        if l > 127 {
            r.set_at(i, Rgb { r: 255, g: 255, b: 255 });
        } else {
            r.set_at(i, Rgb { r: 0, g: 0, b: 0 });
        }
        i = i + 1;
    }
    assert(r.spec_pixels() =~= threshold_seq(orig));
}

} // verus!
