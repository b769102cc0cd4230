//! The Floyd-Steinberg dithering transform: map every pixel to pure black or
//! pure white, diffusing each pixel's quantization error into its
//! not-yet-visited neighbors.
//!
//! The sweep is strictly row-major (all of row y before row y+1, left to
//! right within a row): each pixel is classified on a value that already
//! includes the error diffused from earlier pixels. Channel arithmetic is
//! exact integer arithmetic; a diffused value that would leave the 8-bit
//! range is clamped to it (saturating, never wrapping).

use vstd::prelude::*;

use crate::color::{black, white, Rgb};
use crate::raster::{lemma_row_major_index_in_range, Raster};

verus! {

/// The Floyd-Steinberg diffusion weights, as sixteenths, in visiting order
/// of the four neighbors: right 7, below-left 3, below 5, below-right 1.
pub open spec fn fs_weight(k: int) -> int {
    if k == 0 {
        7
    } else if k == 1 {
        3
    } else if k == 2 {
        5
    } else {
        1
    }
}

/// The sum of a pixel's three channels, the intensity used to classify it.
pub open spec fn intensity_sum(p: Rgb) -> int {
    p.r + p.g + p.b
}

/// Where a single pixel goes: white when its average intensity exceeds 128,
/// i.e. its channel sum exceeds 384, black otherwise.
pub open spec fn dither_classify(p: Rgb) -> Rgb {
    if intensity_sum(p) > 384 {
        white()
    } else {
        black()
    }
}

/// A neighbor channel `v` after receiving error `e` scaled by `w`
/// sixteenths: the exact value `v + e * w / 16` rounded down, clamped to the
/// 8-bit range.
pub open spec fn diffused_channel(v: int, e: int, w: int) -> int {
    let t16 = 16 * v + e * w;
    if t16 < 0 {
        0
    } else if t16 / 16 > 255 {
        255
    } else {
        t16 / 16
    }
}

/// A neighbor pixel after receiving the per-channel errors scaled by `w`
/// sixteenths.
pub open spec fn diffused_pixel(p: Rgb, er: int, eg: int, eb: int, w: int) -> Rgb {
    Rgb {
        r: diffused_channel(p.r as int, er, w) as u8,
        g: diffused_channel(p.g as int, eg, w) as u8,
        b: diffused_channel(p.b as int, eb, w) as u8,
    }
}

/// One step of the sweep over the flat row-major pixel sequence `s` of a
/// `w` x `h` raster: classify the pixel at flat index `i`, overwrite it, and
/// diffuse its quantization error into the in-bounds ones of its four
/// forward neighbors. An out-of-bounds neighbor is skipped: that share of
/// the error is lost at the edge.
#[verifier::opaque]
pub open spec fn dither_step(s: Seq<Rgb>, w: int, h: int, i: int) -> Seq<Rgb> {
    let x = i % w;
    let y = i / w;
    let p = s[i];
    let q = dither_classify(p);
    let er = p.r - q.r;
    let eg = p.g - q.g;
    let eb = p.b - q.b;
    let s0 = s.update(i, q);
    let s1 = if x + 1 < w {
        s0.update(i + 1, diffused_pixel(s0[i + 1], er, eg, eb, fs_weight(0)))
    } else {
        s0
    };
    let s2 = if x >= 1 && y + 1 < h {
        s1.update(i + w - 1, diffused_pixel(s1[i + w - 1], er, eg, eb, fs_weight(1)))
    } else {
        s1
    };
    let s3 = if y + 1 < h {
        s2.update(i + w, diffused_pixel(s2[i + w], er, eg, eb, fs_weight(2)))
    } else {
        s2
    };
    if x + 1 < w && y + 1 < h {
        s3.update(i + w + 1, diffused_pixel(s3[i + w + 1], er, eg, eb, fs_weight(3)))
    } else {
        s3
    }
}

/// The pixel sequence after the first `k` steps of the sweep.
pub open spec fn dither_prefix(s: Seq<Rgb>, w: int, h: int, k: int) -> Seq<Rgb>
    decreases k,
{
    if k <= 0 {
        s
    } else {
        dither_step(dither_prefix(s, w, h, k - 1), w, h, k - 1)
    }
}

/// The dithering transform of a whole flat pixel sequence: the full sweep,
/// one step per pixel.
pub open spec fn dither_seq(s: Seq<Rgb>, w: int, h: int) -> Seq<Rgb> {
    dither_prefix(s, w, h, w * h)
}

/// Whether a color is pure black or pure white.
pub open spec fn is_black_or_white(c: Rgb) -> bool {
    c == black() || c == white()
}

/// One step leaves every already-visited pixel alone, classifies the pixel
/// it visits to black or white, and keeps the length: error is only ever
/// diffused forward, into pixels at strictly larger flat indices.
pub proof fn lemma_step_keeps_prefix(s: Seq<Rgb>, w: int, h: int, i: int)
    requires
        w >= 0,
        h >= 0,
        s.len() == w * h,
        0 <= i < w * h,
    ensures
        dither_step(s, w, h, i).len() == s.len(),
        forall|j: int| 0 <= j < i ==> dither_step(s, w, h, i)[j] == s[j],
        dither_step(s, w, h, i)[i] == dither_classify(s[i]),
{
    reveal(dither_step);
    assert(w >= 1 && h >= 1) by (nonlinear_arith)
        requires w >= 0 && h >= 0 && 0 <= i < w * h;
    let x = i % w;
    let y = i / w;
    vstd::arithmetic::div_mod::lemma_fundamental_div_mod(i, w);
    vstd::arithmetic::div_mod::lemma_mod_bound(i, w);
    assert(i == y * w + x) by (nonlinear_arith)
        requires i == w * (i / w) + i % w && y == i / w && x == i % w;
    assert(0 <= y) by (nonlinear_arith)
        requires i >= 0 && w >= 1 && 0 <= x < w && i == y * w + x;
    assert(y < h) by (nonlinear_arith)
        requires i < w * h && w >= 1 && 0 <= x < w && i == y * w + x;
    if x + 1 < w {
        lemma_row_major_index_in_range(w, h, x + 1, y);
        assert(i + 1 == y * w + (x + 1));
    }
    if x >= 1 && y + 1 < h {
        lemma_row_major_index_in_range(w, h, x - 1, y + 1);
        assert(i + w - 1 == (y + 1) * w + (x - 1)) by (nonlinear_arith)
            requires i == y * w + x;
    }
    if y + 1 < h {
        lemma_row_major_index_in_range(w, h, x, y + 1);
        assert(i + w == (y + 1) * w + x) by (nonlinear_arith)
            requires i == y * w + x;
    }
    if x + 1 < w && y + 1 < h {
        lemma_row_major_index_in_range(w, h, x + 1, y + 1);
        assert(i + w + 1 == (y + 1) * w + (x + 1)) by (nonlinear_arith)
            requires i == y * w + x;
    }
}

/// After the first `k` steps the length is unchanged and every visited
/// pixel is pure black or pure white.
#[verifier::rlimit(100)]
pub proof fn lemma_prefix_black_or_white(s: Seq<Rgb>, w: int, h: int, k: int)
    requires
        w >= 0,
        h >= 0,
        s.len() == w * h,
        0 <= k <= w * h,
    ensures
        dither_prefix(s, w, h, k).len() == s.len(),
        forall|j: int| 0 <= j < k ==> is_black_or_white(dither_prefix(s, w, h, k)[j]),
    decreases k,
{
    if k > 0 {
        lemma_prefix_black_or_white(s, w, h, k - 1);
        let prev = dither_prefix(s, w, h, k - 1);
        lemma_step_keeps_prefix(prev, w, h, k - 1);
        assert(dither_prefix(s, w, h, k) == dither_step(prev, w, h, k - 1));
        assert forall|j: int| 0 <= j < k implies is_black_or_white(
            dither_prefix(s, w, h, k)[j]) by {
            if j < k - 1 {
                assert(dither_prefix(s, w, h, k)[j] == prev[j]);
            } else {
                assert(dither_prefix(s, w, h, k)[j] == dither_classify(prev[k - 1]));
            }
        }
    }
}

/// Classify a pixel: white when the channel sum exceeds 384 (an average
/// above 128), black otherwise.
pub fn classify_pixel(p: Rgb) -> (q: Rgb)
    ensures
        q == dither_classify(p),
{
    let sum: u32 = p.r as u32 + p.g as u32 + p.b as u32;
    if sum > 384 {
        Rgb { r: 255, g: 255, b: 255 }
    } else {
        Rgb { r: 0, g: 0, b: 0 }
    }
}

/// Add `e * wgt / 16` to channel value `v`, rounding down and clamping to
/// the 8-bit range.
pub fn diffuse_channel_value(v: u8, e: i32, wgt: i32) -> (nv: u8)
    requires
        -255 <= e <= 255,
        1 <= wgt <= 7,
    ensures
        nv == diffused_channel(v as int, e as int, wgt as int),
{
    assert(-255 * 7 <= e * wgt <= 255 * 7) by (nonlinear_arith)
        requires -255 <= e <= 255 && 1 <= wgt <= 7;
    let t16: i32 = 16 * (v as i32) + e * wgt;
    if t16 < 0 {
        0
    } else {
        let t = t16 / 16;
        if t > 255 {
            255
        } else {
            t as u8
        }
    }
}

/// A neighbor pixel after receiving the scaled per-channel errors.
fn diffuse_pixel_value(p: Rgb, er: i32, eg: i32, eb: i32, wgt: i32) -> (np: Rgb)
    requires
        -255 <= er <= 255,
        -255 <= eg <= 255,
        -255 <= eb <= 255,
        1 <= wgt <= 7,
    ensures
        np == diffused_pixel(p, er as int, eg as int, eb as int, wgt as int),
{
    Rgb {
        r: diffuse_channel_value(p.r, er, wgt),
        g: diffuse_channel_value(p.g, eg, wgt),
        b: diffuse_channel_value(p.b, eb, wgt),
    }
}

/// Dither the whole raster in place by Floyd-Steinberg error diffusion:
/// a single row-major sweep that leaves every pixel pure black or pure
/// white. The dimensions do not change. A raster with no forward neighbors
/// (a single pixel, or none) simply discards the error.
#[verifier::rlimit(100)]
pub fn dither(r: &mut Raster)
    requires
        old(r).wf(),
    ensures
        final(r).wf(),
        final(r).spec_width() == old(r).spec_width(),
        final(r).spec_height() == old(r).spec_height(),
        final(r).spec_pixels() == dither_seq(
            old(r).spec_pixels(), old(r).spec_width(), old(r).spec_height()),
        forall|j: int| 0 <= j < final(r).spec_pixels().len()
            ==> is_black_or_white(final(r).spec_pixels()[j]),
{
    let ghost orig = r.spec_pixels();
    let ghost gw = r.spec_width();
    let ghost gh = r.spec_height();
    let w = r.width();
    let h = r.height();
    let n = r.len();
    let mut k: usize = 0;
    while k < n
        invariant
            k <= n,
            n == orig.len(),
            n == gw * gh,
            w == gw,
            h == gh,
            r.wf() == old(r).wf(),
            r.spec_width() == gw,
            r.spec_height() == gh,
            r.spec_pixels() == dither_prefix(orig, gw, gh, k as int),
            r.spec_pixels().len() == n,
        decreases n - k,
    {
        proof {
            lemma_step_keeps_prefix(r.spec_pixels(), gw, gh, k as int);
        }
        let ghost before = r.spec_pixels();
        assert(w >= 1) by (nonlinear_arith)
            requires k < n && n == gw * gh && w == gw;
        let x = k % w;
        let y = k / w;
        proof {
            vstd::arithmetic::div_mod::lemma_fundamental_div_mod(k as int, w as int);
            vstd::arithmetic::div_mod::lemma_mod_bound(k as int, w as int);
            assert(k == y * w + x) by (nonlinear_arith)
                requires
                    k == (w as int) * ((k as int) / (w as int)) + (k as int) % (w as int),
                    y == (k as int) / (w as int),
                    x == (k as int) % (w as int),
            ;
            assert(y < gh) by (nonlinear_arith)
                requires
                    k < gw * gh,
                    gw >= 1,
                    x < gw,
                    k == y * gw + x,
                    y >= 0,
            ;
        }
        let p = r.get_at(k);
        let q = classify_pixel(p);
        let er: i32 = p.r as i32 - q.r as i32;
        let eg: i32 = p.g as i32 - q.g as i32;
        let eb: i32 = p.b as i32 - q.b as i32;
        r.set_at(k, q);
        if x + 1 < w {
            proof {
                lemma_row_major_index_in_range(gw, gh, x as int + 1, y as int);
            }
            let np = r.get_at(k + 1);
            r.set_at(k + 1, diffuse_pixel_value(np, er, eg, eb, 7));
        }
        if x >= 1 && y + 1 < h {
            proof {
                lemma_row_major_index_in_range(gw, gh, x as int - 1, y as int + 1);
                assert(k + w - 1 == (y as int + 1) * gw + (x as int - 1)) by (nonlinear_arith)
                    requires k == y * w + x && w == gw;
            }
            let np = r.get_at(k + w - 1);
            r.set_at(k + w - 1, diffuse_pixel_value(np, er, eg, eb, 3));
        }
        if y + 1 < h {
            proof {
                lemma_row_major_index_in_range(gw, gh, x as int, y as int + 1);
                assert(k + w == (y as int + 1) * gw + x) by (nonlinear_arith)
                    requires k == y * w + x && w == gw;
            }
            let np = r.get_at(k + w);
            r.set_at(k + w, diffuse_pixel_value(np, er, eg, eb, 5));
        }
        if x + 1 < w && y + 1 < h {
            proof {
                lemma_row_major_index_in_range(gw, gh, x as int + 1, y as int + 1);
                assert(k + w + 1 == (y as int + 1) * gw + (x as int + 1)) by (nonlinear_arith)
                    requires k == y * w + x && w == gw;
            }
            let np = r.get_at(k + w + 1);
            r.set_at(k + w + 1, diffuse_pixel_value(np, er, eg, eb, 1));
        }
        proof {
            reveal(dither_step);
            assert(r.spec_pixels() =~= dither_step(before, gw, gh, k as int));
        }
        k = k + 1;
    }
    proof {
        lemma_prefix_black_or_white(orig, gw, gh, n as int);
    }
}

} // verus!
