//! The palette transform: map every pixel to its nearest color among the
//! first N entries of the palette registry.

use vstd::prelude::*;

use crate::color::{registry, registry_color, registry_len, Rgb};
use crate::raster::Raster;

verus! {

/// Why a transform rejected its parameters.
#[derive(Clone, Copy, Debug, PartialEq, Eq, Structural)]
pub enum TransformError {
    /// The requested palette color count was not positive.
    InvalidColorCount,
}

/// Squared Euclidean distance between two colors in RGB space.
pub open spec fn dist2(a: Rgb, b: Rgb) -> int {
    (a.r - b.r) * (a.r - b.r) + (a.g - b.g) * (a.g - b.g) + (a.b - b.b) * (a.b - b.b)
}

/// The index of the color nearest to `c` among the first `n` registry
/// colors. Ties go to the earlier-registered color: a later color is taken
/// only when strictly closer.
pub open spec fn nearest_idx(c: Rgb, n: int) -> int
    decreases n,
{
    if n <= 1 {
        0
    } else {
        let best = nearest_idx(c, n - 1);
        if dist2(c, registry(n - 1)) < dist2(c, registry(best)) {
            n - 1
        } else {
            best
        }
    }
}

/// Where a single pixel goes under an N-color palette.
pub open spec fn palette_pixel(c: Rgb, n: int) -> Rgb {
    registry(nearest_idx(c, n))
}

/// The palette transform of a whole pixel sequence, pixel by pixel.
pub open spec fn palette_seq(s: Seq<Rgb>, n: int) -> Seq<Rgb> {
    Seq::new(s.len(), |i: int| palette_pixel(s[i], n))
}

/// The active palette size for a requested count: the count, clamped to the
/// registry size.
pub open spec fn clamped_count(n_colors: int) -> int {
    if n_colors < registry_len() {
        n_colors
    } else {
        registry_len()
    }
}

/// Squared Euclidean RGB distance, in exact integer arithmetic.
pub fn distance_squared(a: Rgb, b: Rgb) -> (d: u32)
    ensures
        d == dist2(a, b),
{
    let dr: i32 = a.r as i32 - b.r as i32;
    let dg: i32 = a.g as i32 - b.g as i32;
    let db: i32 = a.b as i32 - b.b as i32;
    assert(dr * dr + dg * dg + db * db <= 3 * 255 * 255) by (nonlinear_arith)
        requires -255 <= dr <= 255 && -255 <= dg <= 255 && -255 <= db <= 255;
    assert(dr * dr >= 0 && dg * dg >= 0 && db * db >= 0) by (nonlinear_arith);
    (dr * dr + dg * dg + db * db) as u32
}

/// The registry color nearest to `c` among the first `n`, earliest wins on
/// a tie.
pub fn nearest_color(c: Rgb, n: usize) -> (q: Rgb)
    requires
        1 <= n <= registry_len(),
    ensures
        q == palette_pixel(c, n as int),
{
    let mut best: usize = 0;
    let mut best_dist: u32 = distance_squared(c, registry_color(0));
    let mut j: usize = 1;
    while j < n
        invariant
            1 <= j <= n <= registry_len(),
            best == nearest_idx(c, j as int),
            0 <= best < j,
            best_dist == dist2(c, registry(best as int)),
        decreases n - j,
    {
        let d = distance_squared(c, registry_color(j));
        if d < best_dist {
            best = j;
            best_dist = d;
        }
        j = j + 1;
    }
    registry_color(best)
}

/// Quantize the whole raster in place to the first `n_colors` registry
/// colors. A zero count is rejected with a validation error and the raster
/// is left untouched; a count above the registry size is clamped to it.
/// The dimensions do not change.
pub fn palette_quantize(r: &mut Raster, n_colors: usize) -> (result: Result<(), TransformError>)
    requires
        old(r).wf(),
    ensures
        final(r).wf(),
        final(r).spec_width() == old(r).spec_width(),
        final(r).spec_height() == old(r).spec_height(),
        n_colors == 0 ==> result == Result::<(), TransformError>::Err(
            TransformError::InvalidColorCount) && *final(r) == *old(r),
        n_colors >= 1 ==> result == Result::<(), TransformError>::Ok(())
            && final(r).spec_pixels() == palette_seq(
                old(r).spec_pixels(), clamped_count(n_colors as int)),
{
    if n_colors == 0 {
        return Err(TransformError::InvalidColorCount);
    }
    let n: usize = if n_colors < 9 { n_colors } else { 9 };
    let ghost orig = r.spec_pixels();
    let count = r.len();
    let mut i: usize = 0;
    while i < count
        invariant
            i <= count,
            count == orig.len(),
            1 <= n <= registry_len(),
            n == clamped_count(n_colors as int),
            r.wf() == old(r).wf(),
            r.spec_width() == old(r).spec_width(),
            r.spec_height() == old(r).spec_height(),
            r.spec_pixels().len() == count,
            forall|j: int| 0 <= j < i ==> r.spec_pixels()[j] == palette_pixel(orig[j], n as int),
            forall|j: int| i <= j < count ==> r.spec_pixels()[j] == orig[j],
        decreases count - i,
    {
        let p = r.get_at(i);
        let q = nearest_color(p, n);
        r.set_at(i, q);
        i = i + 1;
    }
    assert(r.spec_pixels() =~= palette_seq(orig, n as int));
    Ok(())
}

} // verus!
