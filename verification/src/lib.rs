//! Reduced-color image transforms: binary luminance thresholding,
//! nearest-color palette quantization, and Floyd-Steinberg error-diffusion
//! dithering, all operating on an in-memory RGB raster.

pub mod color;
pub mod dither;
pub mod laws;
pub mod mode;
pub mod palette;
pub mod raster;
pub mod threshold;
