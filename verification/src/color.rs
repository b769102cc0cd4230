//! RGB color values and the fixed palette registry.

use vstd::prelude::*;

verus! {

/// An RGB color: three 8-bit channels.
#[derive(Clone, Copy, Debug, PartialEq, Eq, Structural)]
pub struct Rgb {
    pub r: u8,
    pub g: u8,
    pub b: u8,
}

/// Pure black, the first registry color.
pub open spec fn black() -> Rgb {
    Rgb { r: 0, g: 0, b: 0 }
}

/// Pure white, the third registry color.
pub open spec fn white() -> Rgb {
    Rgb { r: 255, g: 255, b: 255 }
}

/// Mid grey, the second registry color.
pub open spec fn grey() -> Rgb {
    Rgb { r: 127, g: 127, b: 127 }
}

/// The number of colors in the palette registry.
pub open spec fn registry_len() -> int {
    9
}

/// The fixed, ordered palette registry: black, grey, white, red, green,
/// blue, yellow, cyan, magenta. The order is significant: it decides
/// truncation to the first N colors and tie-breaking in quantization.
pub open spec fn registry(i: int) -> Rgb {
    if i == 0 {
        black()
    } else if i == 1 {
        grey()
    } else if i == 2 {
        white()
    } else if i == 3 {
        Rgb { r: 255, g: 0, b: 0 }
    } else if i == 4 {
        Rgb { r: 0, g: 255, b: 0 }
    } else if i == 5 {
        Rgb { r: 0, g: 0, b: 255 }
    } else if i == 6 {
        Rgb { r: 255, g: 255, b: 0 }
    } else if i == 7 {
        Rgb { r: 0, g: 255, b: 255 }
    } else {
        Rgb { r: 255, g: 0, b: 255 }
    }
}

impl Rgb {
    /// Build a color from its three channels.
    pub fn new(r: u8, g: u8, b: u8) -> (c: Rgb)
        ensures
            c == (Rgb { r, g, b }),
    {
        Rgb { r, g, b }
    }
}

/// The registry color at index `i`.
pub fn registry_color(i: usize) -> (c: Rgb)
    requires
        0 <= i < registry_len(),
    ensures
        c == registry(i as int),
{
    if i == 0 {
        Rgb { r: 0, g: 0, b: 0 }
    } else if i == 1 {
        Rgb { r: 127, g: 127, b: 127 }
    } else if i == 2 {
        Rgb { r: 255, g: 255, b: 255 }
    } else if i == 3 {
        Rgb { r: 255, g: 0, b: 0 }
    } else if i == 4 {
        Rgb { r: 0, g: 255, b: 0 }
    } else if i == 5 {
        Rgb { r: 0, g: 0, b: 255 }
    } else if i == 6 {
        Rgb { r: 255, g: 255, b: 0 }
    } else if i == 7 {
        Rgb { r: 0, g: 255, b: 255 }
    } else {
        Rgb { r: 255, g: 0, b: 255 }
    }
}

} // verus!
