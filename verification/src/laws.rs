//! The library's general laws, stated and proved once and for all: what
//! thresholding, quantization and dithering guarantee on every input.

use vstd::prelude::*;

use vstd::arithmetic::div_mod::{lemma_fundamental_div_mod, lemma_mod_bound};

use crate::color::{black, grey, registry, registry_len, white, Rgb};
use crate::dither::{
    dither_classify, dither_prefix, dither_seq, dither_step, diffused_pixel, fs_weight,
    intensity_sum, is_black_or_white, lemma_prefix_black_or_white, lemma_step_keeps_prefix,
};
use crate::palette::{dist2, nearest_idx, palette_seq};
use crate::threshold::{luma, threshold_seq};

verus! {

/// Thresholding maps every pixel to pure black or pure white and keeps the
/// pixel count.
pub proof fn lemma_threshold_black_or_white(s: Seq<Rgb>)
    ensures
        threshold_seq(s).len() == s.len(),
        forall|i: int| 0 <= i < s.len() ==> is_black_or_white(threshold_seq(s)[i]),
{
}

/// An all-white raster thresholds to itself: white has full luminance.
pub proof fn lemma_threshold_all_white(s: Seq<Rgb>)
    requires
        forall|i: int| 0 <= i < s.len() ==> s[i] == white(),
    ensures
        threshold_seq(s) == s,
{
    assert(luma(white()) == 255);
    assert(threshold_seq(s) =~= s);
}

/// An all-black raster thresholds to itself: black has zero luminance.
pub proof fn lemma_threshold_all_black(s: Seq<Rgb>)
    requires
        forall|i: int| 0 <= i < s.len() ==> s[i] == black(),
    ensures
        threshold_seq(s) == s,
{
    assert(luma(black()) == 0);
    assert(threshold_seq(s) =~= s);
}

/// Thresholding is idempotent: applied to its own output it changes
/// nothing, since pure white stays white and pure black stays black.
pub proof fn lemma_threshold_idempotent(s: Seq<Rgb>)
    ensures
        threshold_seq(threshold_seq(s)) == threshold_seq(s),
{
    assert(luma(white()) == 255);
    assert(luma(black()) == 0);
    assert(threshold_seq(threshold_seq(s)) =~= threshold_seq(s));
}

/// With a single-color palette, every pixel becomes that single color:
/// black, the first registry entry.
pub proof fn lemma_palette_single_color(s: Seq<Rgb>)
    ensures
        palette_seq(s, 1) == Seq::new(s.len(), |i: int| black()),
{
    assert(palette_seq(s, 1) =~= Seq::new(s.len(), |i: int| black()));
}

/// The chosen palette index is the least minimizer of the squared distance
/// among the first `n` registry colors: no color is strictly closer, and
/// every earlier color is strictly farther. On an exact tie the
/// earlier-registered color therefore wins.
pub proof fn lemma_nearest_least_minimizer(c: Rgb, n: int)
    requires
        1 <= n,
    ensures
        0 <= nearest_idx(c, n) < n,
        forall|j: int| 0 <= j < n
            ==> dist2(c, registry(nearest_idx(c, n))) <= dist2(c, #[trigger] registry(j)),
        forall|j: int| 0 <= j < nearest_idx(c, n)
            ==> dist2(c, #[trigger] registry(j)) > dist2(c, registry(nearest_idx(c, n))),
    decreases n,
{
    if n > 1 {
        lemma_nearest_least_minimizer(c, n - 1);
    }
}

/// Every quantized pixel is one of the first `n` registry colors: the one
/// at the chosen index.
pub proof fn lemma_palette_pixels_in_registry(s: Seq<Rgb>, n: int)
    requires
        1 <= n <= registry_len(),
    ensures
        palette_seq(s, n).len() == s.len(),
        forall|i: int| 0 <= i < s.len()
            ==> #[trigger] palette_seq(s, n)[i] == registry(nearest_idx(s[i], n)),
        forall|i: int| 0 <= i < s.len() ==> 0 <= nearest_idx(#[trigger] s[i], n) < n,
{
    assert forall|i: int| 0 <= i < s.len() implies 0 <= nearest_idx(#[trigger] s[i], n) < n by {
        lemma_nearest_least_minimizer(s[i], n);
    }
}

/// The four Floyd-Steinberg weights emit the whole error: they sum to
/// sixteen sixteenths, so no normalization error is introduced.
pub proof fn lemma_fs_weights_sum()
    ensures
        fs_weight(0) + fs_weight(1) + fs_weight(2) + fs_weight(3) == 16,
{
}

/// Once the sweep has passed a pixel, later steps never change it again:
/// error is only ever diffused forward.
pub proof fn lemma_dither_prefix_stable(s: Seq<Rgb>, w: int, h: int, k: int, m: int)
    requires
        w >= 0,
        h >= 0,
        s.len() == w * h,
        0 <= k <= m <= w * h,
    ensures
        dither_prefix(s, w, h, m).len() == s.len(),
        forall|j: int| 0 <= j < k
            ==> dither_prefix(s, w, h, m)[j] == dither_prefix(s, w, h, k)[j],
    decreases m,
{
    if m == k {
        lemma_prefix_black_or_white(s, w, h, k);
    } else {
        lemma_dither_prefix_stable(s, w, h, k, m - 1);
        lemma_step_keeps_prefix(dither_prefix(s, w, h, m - 1), w, h, m - 1);
    }
}

/// No transform ever changes the pixel count: thresholding, quantization
/// and dithering all map a raster onto one of the same dimensions.
pub proof fn lemma_transforms_keep_pixel_count(s: Seq<Rgb>, w: int, h: int, n: int)
    requires
        w >= 0,
        h >= 0,
        s.len() == w * h,
    ensures
        threshold_seq(s).len() == s.len(),
        palette_seq(s, n).len() == s.len(),
        dither_seq(s, w, h).len() == s.len(),
{
    lemma_prefix_black_or_white(s, w, h, w * h);
}

/// Division and remainder of a value smaller than the divisor.
proof fn lemma_div_mod_small(x: int, w: int)
    requires
        0 <= x < w,
    ensures
        x % w == x,
        x / w == 0,
{
    lemma_fundamental_div_mod(x, w);
    lemma_mod_bound(x, w);
    assert(x % w == x && x / w == 0) by (nonlinear_arith)
        requires
            x == w * (x / w) + x % w,
            0 <= x % w < w,
            0 <= x < w,
    ;
}

/// The first step of the sweep on a uniform mid-grey raster classifies the
/// first pixel black and hands the second pixel a value over the midpoint.
#[verifier::rlimit(100)]
proof fn lemma_mid_grey_first_step(w: int, h: int)
    requires
        w >= 1,
        h >= 1,
        w * h >= 2,
    ensures
        ({
            let u = Seq::new((w * h) as nat, |i: int| grey());
            let s1 = dither_step(u, w, h, 0);
            &&& s1.len() == w * h
            &&& s1[0] == black()
            &&& intensity_sum(s1[1]) > 384
        }),
{
    reveal(crate::dither::dither_step);
    let u = Seq::new((w * h) as nat, |i: int| grey());
    assert(u[0] == grey());
    assert(u[1] == grey());
    lemma_div_mod_small(0, w);
    assert(dither_classify(grey()) == black());
    lemma_step_keeps_prefix(u, w, h, 0);
    let s1 = dither_step(u, w, h, 0);
    assert(s1.len() == w * h);
    assert(s1[0] == black());
    if w >= 2 {
        // The error goes right with weight 7: the neighbor reads 182.
        if h >= 2 {
            assert(w < w * h && w + 1 < w * h) by (nonlinear_arith)
                requires w >= 2 && h >= 2;
        }
        assert(s1[1] == diffused_pixel(grey(), 127, 127, 127, 7));
        assert(s1[1] == (Rgb { r: 182, g: 182, b: 182 }));
    } else {
        // A single column: the error goes down with weight 5, to 166.
        assert(w == 1 && h >= 2);
        assert(s1[1] == diffused_pixel(grey(), 127, 127, 127, 5));
        assert(s1[1] == (Rgb { r: 166, g: 166, b: 166 }));
    }
}

/// The second step of the sweep classifies the second pixel white, since
/// the first step pushed it over the midpoint, and keeps the first black.
#[verifier::rlimit(100)]
proof fn lemma_mid_grey_second_step(s1: Seq<Rgb>, w: int, h: int)
    requires
        w >= 1,
        h >= 1,
        w * h >= 2,
        s1.len() == w * h,
        intensity_sum(s1[1]) > 384,
    ensures
        dither_step(s1, w, h, 1)[0] == s1[0],
        dither_step(s1, w, h, 1)[1] == white(),
{
    lemma_step_keeps_prefix(s1, w, h, 1);
    assert(dither_classify(s1[1]) == white());
}

/// Dithering a uniform mid-grey raster of at least two pixels yields both
/// colors: the first pixel classifies black (its average intensity, 127,
/// does not exceed 128), and the error it diffuses forward pushes the
/// second pixel visited over the midpoint, so that one classifies white.
/// Thresholding the same raster yields only black: the two paths differ.
pub proof fn lemma_dither_mid_grey_both(w: int, h: int)
    requires
        w >= 1,
        h >= 1,
        w * h >= 2,
    ensures
        ({
            let u = Seq::new((w * h) as nat, |i: int| grey());
            &&& dither_seq(u, w, h)[0] == black()
            &&& dither_seq(u, w, h)[1] == white()
            &&& forall|i: int| 0 <= i < u.len() ==> threshold_seq(u)[i] == black()
        }),
{
    let u = Seq::new((w * h) as nat, |i: int| grey());
    let n = w * h;
    assert(luma(grey()) == 127);
    assert(dither_prefix(u, w, h, 0) == u);
    let s1 = dither_step(u, w, h, 0);
    assert(dither_prefix(u, w, h, 1) == s1);
    let s2 = dither_step(s1, w, h, 1);
    assert(dither_prefix(u, w, h, 2) == s2);
    lemma_mid_grey_first_step(w, h);
    lemma_mid_grey_second_step(s1, w, h);
    lemma_dither_prefix_stable(u, w, h, 2, n);
    assert(dither_seq(u, w, h)[0] == s2[0]);
    assert(dither_seq(u, w, h)[1] == s2[1]);
}

} // verus!
