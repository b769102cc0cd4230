//! Mode selection: exactly one transform, chosen by a tagged mode value and
//! applied once over the whole raster.

use vstd::prelude::*;

use crate::dither::{dither, dither_seq};
use crate::palette::{clamped_count, palette_quantize, palette_seq, TransformError};
use crate::raster::Raster;
use crate::threshold::{threshold, threshold_seq};

verus! {

/// The three transform modes. `Palette` carries its color count; the other
/// two take no parameters.
#[derive(Clone, Copy, Debug, PartialEq, Eq, Structural)]
pub enum Mode {
    /// Binary luminance thresholding.
    Threshold,
    /// Nearest-color quantization to the first `n_colors` registry colors.
    Palette { n_colors: usize },
    /// Floyd-Steinberg error-diffusion dithering.
    Dithering,
}

/// Apply the transform selected by `mode` to the raster, in place. Only the
/// palette mode can fail, and only on a zero color count; the raster is then
/// left untouched. The dimensions never change.
pub fn apply_mode(r: &mut Raster, mode: Mode) -> (result: Result<(), TransformError>)
    requires
        old(r).wf(),
    ensures
        final(r).wf(),
        final(r).spec_width() == old(r).spec_width(),
        final(r).spec_height() == old(r).spec_height(),
        match mode {
            Mode::Threshold => result == Result::<(), TransformError>::Ok(())
                && final(r).spec_pixels() == threshold_seq(old(r).spec_pixels()),
            Mode::Palette { n_colors } => {
                &&& n_colors == 0 ==> result == Result::<(), TransformError>::Err(
                    TransformError::InvalidColorCount) && *final(r) == *old(r)
                &&& n_colors >= 1 ==> result == Result::<(), TransformError>::Ok(())
                    && final(r).spec_pixels() == palette_seq(
                        old(r).spec_pixels(), clamped_count(n_colors as int))
            },
            Mode::Dithering => result == Result::<(), TransformError>::Ok(())
                && final(r).spec_pixels() == dither_seq(
                    old(r).spec_pixels(), old(r).spec_width(), old(r).spec_height()),
        },
{
    match mode {
        Mode::Threshold => {
            threshold(r);
            Ok(())
        },
        Mode::Palette { n_colors } => palette_quantize(r, n_colors),
        Mode::Dithering => {
            dither(r);
            Ok(())
        },
    }
}

} // verus!
