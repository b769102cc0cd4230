use ditherer::color::{registry_color, Rgb};
use ditherer::dither::{diffuse_channel_value, dither};
use ditherer::mode::{apply_mode, Mode};
use ditherer::palette::{distance_squared, nearest_color, palette_quantize, TransformError};
use ditherer::raster::Raster;
use ditherer::threshold::{luma_value, threshold};

fn solid(width: usize, height: usize, c: Rgb) -> Raster {
    Raster::new(width, height, c)
}

fn rgb(r: u8, g: u8, b: u8) -> Rgb {
    Rgb::new(r, g, b)
}

fn black() -> Rgb {
    Rgb { r: 0, g: 0, b: 0 }
}

fn white() -> Rgb {
    Rgb { r: 255, g: 255, b: 255 }
}

fn grey() -> Rgb {
    Rgb { r: 127, g: 127, b: 127 }
}

#[test]
fn luma_weights_are_exact() {
    // (2126*200 + 7152*10 + 722*10) / 10000 == 50
    assert_eq!(luma_value(rgb(200, 10, 10)), 50);
    // (2126*10 + 7152*240 + 722*10) / 10000 == 174
    assert_eq!(luma_value(rgb(10, 240, 10)), 174);
    assert_eq!(luma_value(white()), 255);
    assert_eq!(luma_value(black()), 0);
    assert_eq!(luma_value(grey()), 127);
}

#[test]
fn threshold_all_white_stays_white() {
    let mut r = solid(3, 2, white());
    threshold(&mut r);
    for p in r.pixels() {
        assert_eq!(*p, white());
    }
}

#[test]
fn threshold_all_black_stays_black() {
    let mut r = solid(3, 2, black());
    threshold(&mut r);
    for p in r.pixels() {
        assert_eq!(*p, black());
    }
}

#[test]
fn threshold_output_is_binary_and_exact() {
    let pixels = vec![rgb(200, 10, 10), rgb(10, 240, 10), grey(), rgb(128, 128, 128)];
    let mut r = Raster::try_from_pixels(4, 1, pixels).unwrap();
    threshold(&mut r);
    // luma 50 -> black, luma 174 -> white, luma 127 -> black, luma 128 -> white
    assert_eq!(*r.pixels(), vec![black(), white(), black(), white()]);
    for p in r.pixels() {
        assert!(*p == black() || *p == white());
    }
}

#[test]
fn threshold_is_idempotent() {
    let pixels = vec![rgb(13, 77, 200), rgb(250, 250, 0), grey(), rgb(90, 160, 30)];
    let mut once = Raster::try_from_pixels(2, 2, pixels).unwrap();
    threshold(&mut once);
    let mut twice = Raster::try_from_pixels(2, 2, once.pixels().clone()).unwrap();
    threshold(&mut twice);
    assert_eq!(*once.pixels(), *twice.pixels());
}

#[test]
fn palette_single_color_gives_solid_black() {
    let pixels = vec![rgb(250, 3, 77), white(), grey(), rgb(0, 255, 255)];
    let mut r = Raster::try_from_pixels(4, 1, pixels).unwrap();
    assert_eq!(palette_quantize(&mut r, 1), Ok(()));
    for p in r.pixels() {
        assert_eq!(*p, black());
    }
}

#[test]
fn palette_full_registry_membership() {
    let pixels = vec![
        rgb(250, 10, 10),
        rgb(3, 200, 190),
        rgb(100, 100, 100),
        rgb(255, 250, 5),
        rgb(9, 10, 250),
        rgb(240, 3, 250),
    ];
    let mut r = Raster::try_from_pixels(3, 2, pixels).unwrap();
    assert_eq!(palette_quantize(&mut r, 9), Ok(()));
    for p in r.pixels() {
        let mut in_registry = false;
        for j in 0..9 {
            if *p == registry_color(j) {
                in_registry = true;
            }
        }
        assert!(in_registry);
    }
}

#[test]
fn palette_tie_goes_to_earlier_color() {
    // (191,191,191) is exactly equidistant from grey and white
    // (squared distance 3 * 64 * 64 to each); grey is registered earlier.
    assert_eq!(
        distance_squared(rgb(191, 191, 191), grey()),
        distance_squared(rgb(191, 191, 191), white())
    );
    assert_eq!(nearest_color(rgb(191, 191, 191), 9), grey());
    let mut r = solid(1, 1, rgb(191, 191, 191));
    assert_eq!(palette_quantize(&mut r, 9), Ok(()));
    assert_eq!(r.get(0, 0), grey());
}

#[test]
fn palette_nearest_is_exact() {
    // (250,10,10) is closest to red among the nine registry colors.
    assert_eq!(nearest_color(rgb(250, 10, 10), 9), rgb(255, 0, 0));
    // With only black, grey and white active, it maps to grey.
    assert_eq!(nearest_color(rgb(250, 10, 10), 3), grey());
}

#[test]
fn palette_zero_colors_is_rejected() {
    let mut r = solid(2, 2, rgb(40, 50, 60));
    assert_eq!(palette_quantize(&mut r, 0), Err(TransformError::InvalidColorCount));
    // The raster is untouched on rejection.
    for p in r.pixels() {
        assert_eq!(*p, rgb(40, 50, 60));
    }
}

#[test]
fn palette_count_is_clamped_to_registry() {
    let pixels = vec![rgb(250, 10, 10), rgb(3, 200, 190), grey(), white()];
    let mut big = Raster::try_from_pixels(2, 2, pixels.clone()).unwrap();
    let mut nine = Raster::try_from_pixels(2, 2, pixels).unwrap();
    assert_eq!(palette_quantize(&mut big, 100), Ok(()));
    assert_eq!(palette_quantize(&mut nine, 9), Ok(()));
    assert_eq!(*big.pixels(), *nine.pixels());
}

#[test]
fn dither_mid_grey_has_both_colors() {
    let mut r = solid(4, 4, grey());
    dither(&mut r);
    let mut blacks = 0;
    let mut whites = 0;
    for p in r.pixels() {
        if *p == black() {
            blacks += 1;
        }
        if *p == white() {
            whites += 1;
        }
    }
    assert_eq!(blacks + whites, 16);
    assert!(blacks > 0 && whites > 0);
    // Thresholding the same uniform grey yields pure black instead.
    let mut t = solid(4, 4, grey());
    threshold(&mut t);
    for p in t.pixels() {
        assert_eq!(*p, black());
    }
}

#[test]
fn dither_two_by_two_grey_is_checkerboard() {
    // Exact error propagation: 127 black-error spreads 7/16 right (182),
    // 5/16 down (166), 1/16 diagonally (134); the later pixels absorb the
    // white-errors and the sweep ends black-white / white-black.
    let mut r = solid(2, 2, grey());
    dither(&mut r);
    assert_eq!(*r.pixels(), vec![black(), white(), white(), black()]);
}

#[test]
fn dither_single_pixel_discards_error() {
    let mut dark = solid(1, 1, grey());
    dither(&mut dark);
    assert_eq!(dark.get(0, 0), black());
    let mut bright = solid(1, 1, rgb(200, 200, 200));
    dither(&mut bright);
    assert_eq!(bright.get(0, 0), white());
}

#[test]
fn dither_output_is_binary() {
    let pixels = vec![
        rgb(13, 77, 200),
        rgb(250, 250, 0),
        grey(),
        rgb(90, 160, 30),
        rgb(1, 2, 3),
        rgb(254, 253, 252),
    ];
    let mut r = Raster::try_from_pixels(2, 3, pixels).unwrap();
    dither(&mut r);
    for p in r.pixels() {
        assert!(*p == black() || *p == white());
    }
}

#[test]
fn transforms_never_change_dimensions() {
    let make = || solid(5, 3, rgb(90, 160, 30));
    let mut a = make();
    threshold(&mut a);
    assert_eq!((a.width(), a.height(), a.len()), (5, 3, 15));
    let mut b = make();
    palette_quantize(&mut b, 4).unwrap();
    assert_eq!((b.width(), b.height(), b.len()), (5, 3, 15));
    let mut c = make();
    dither(&mut c);
    assert_eq!((c.width(), c.height(), c.len()), (5, 3, 15));
}

#[test]
fn apply_mode_dispatches_each_transform() {
    let pixels = vec![rgb(13, 77, 200), rgb(250, 250, 0), grey(), rgb(90, 160, 30)];
    let mut via_mode = Raster::try_from_pixels(2, 2, pixels.clone()).unwrap();
    let mut direct = Raster::try_from_pixels(2, 2, pixels.clone()).unwrap();
    assert_eq!(apply_mode(&mut via_mode, Mode::Threshold), Ok(()));
    threshold(&mut direct);
    assert_eq!(*via_mode.pixels(), *direct.pixels());

    let mut via_mode = Raster::try_from_pixels(2, 2, pixels.clone()).unwrap();
    let mut direct = Raster::try_from_pixels(2, 2, pixels.clone()).unwrap();
    assert_eq!(apply_mode(&mut via_mode, Mode::Palette { n_colors: 5 }), Ok(()));
    palette_quantize(&mut direct, 5).unwrap();
    assert_eq!(*via_mode.pixels(), *direct.pixels());

    let mut via_mode = Raster::try_from_pixels(2, 2, pixels.clone()).unwrap();
    let mut direct = Raster::try_from_pixels(2, 2, pixels).unwrap();
    assert_eq!(apply_mode(&mut via_mode, Mode::Dithering), Ok(()));
    dither(&mut direct);
    assert_eq!(*via_mode.pixels(), *direct.pixels());
}

#[test]
fn apply_mode_rejects_zero_palette() {
    let mut r = solid(2, 2, grey());
    assert_eq!(
        apply_mode(&mut r, Mode::Palette { n_colors: 0 }),
        Err(TransformError::InvalidColorCount)
    );
    for p in r.pixels() {
        assert_eq!(*p, grey());
    }
}

#[test]
fn raster_checked_construction() {
    let ok = Raster::try_from_pixels(2, 2, vec![black(), white(), grey(), black()]);
    assert!(ok.is_some());
    let r = ok.unwrap();
    assert_eq!((r.width(), r.height()), (2, 2));
    assert_eq!(r.get(1, 0), white());
    let bad = Raster::try_from_pixels(3, 2, vec![black(), white()]);
    assert!(bad.is_none());
}

#[test]
fn raster_get_set_roundtrip() {
    let mut r = Raster::new(3, 2, black());
    r.set(2, 1, rgb(9, 8, 7));
    assert_eq!(r.get(2, 1), rgb(9, 8, 7));
    assert_eq!(r.get(0, 0), black());
    assert_eq!(r.get_at(5), rgb(9, 8, 7));
    r.set_at(0, white());
    assert_eq!(r.get(0, 0), white());
}

#[test]
fn diffusion_weights_are_exact_sixteenths() {
    // An error of 160 splits into 70 + 30 + 50 + 10: the four weights
    // 7, 3, 5, 1 hand on the whole error, sixteen sixteenths in all.
    assert_eq!(diffuse_channel_value(0, 160, 7), 70);
    assert_eq!(diffuse_channel_value(0, 160, 3), 30);
    assert_eq!(diffuse_channel_value(0, 160, 5), 50);
    assert_eq!(diffuse_channel_value(0, 160, 1), 10);
    assert_eq!(70 + 30 + 50 + 10, 160);
}

#[test]
fn diffusion_rounds_down_and_clamps() {
    // 127 + 127 * 7/16 rounds down to 182.
    assert_eq!(diffuse_channel_value(127, 127, 7), 182);
    assert_eq!(diffuse_channel_value(127, 127, 5), 166);
    assert_eq!(diffuse_channel_value(127, 127, 1), 134);
    // A result past either end of the 8-bit range saturates.
    assert_eq!(diffuse_channel_value(250, 255, 7), 255);
    assert_eq!(diffuse_channel_value(5, -255, 7), 0);
}
