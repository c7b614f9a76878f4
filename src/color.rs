//! Colours and the colour of each maze symbol.

use vstd::prelude::*;

verus! {

/// A colour with 8-bit red, green, blue and alpha channels.
#[derive(Clone, Copy, Debug, PartialEq, Eq, Structural)]
pub struct Rgba {
    pub r: u8,
    pub g: u8,
    pub b: u8,
    pub a: u8,
}

impl Rgba {
    pub fn new(r: u8, g: u8, b: u8, a: u8) -> (c: Rgba)
        ensures
            c == (Rgba { r, g, b, a }),
    {
        Rgba { r, g, b, a }
    }

    pub fn black() -> (c: Rgba)
        ensures
            c == (Rgba { r: 0, g: 0, b: 0, a: 255 }),
    {
        Rgba::new(0, 0, 0, 255)
    }

    pub fn white() -> (c: Rgba)
        ensures
            c == (Rgba { r: 255, g: 255, b: 255, a: 255 }),
    {
        Rgba::new(255, 255, 255, 255)
    }

    pub fn whitesmoke() -> (c: Rgba)
        ensures
            c == (Rgba { r: 245, g: 245, b: 245, a: 255 }),
    {
        Rgba::new(245, 245, 245, 255)
    }

    pub fn gray() -> (c: Rgba)
        ensures
            c == (Rgba { r: 128, g: 128, b: 128, a: 255 }),
    {
        Rgba::new(128, 128, 128, 255)
    }

    pub fn red() -> (c: Rgba)
        ensures
            c == (Rgba { r: 255, g: 0, b: 0, a: 255 }),
    {
        Rgba::new(255, 0, 0, 255)
    }

    pub fn green() -> (c: Rgba)
        ensures
            c == (Rgba { r: 0, g: 128, b: 0, a: 255 }),
    {
        Rgba::new(0, 128, 0, 255)
    }

    pub fn yellow() -> (c: Rgba)
        ensures
            c == (Rgba { r: 255, g: 255, b: 0, a: 255 }),
    {
        Rgba::new(255, 255, 0, 255)
    }
}

/// The flat colour of a maze symbol: its wall colour, grey for the goal and
/// white for any other symbol.
pub open spec fn symbol_color(cell: char) -> Rgba {
    if cell == 'A' {
        Rgba { r: 255, g: 215, b: 0, a: 255 }
    } else if cell == 'R' {
        Rgba { r: 220, g: 20, b: 60, a: 255 }
    } else if cell == 'V' {
        Rgba { r: 50, g: 205, b: 50, a: 255 }
    } else if cell == 'M' {
        Rgba { r: 138, g: 43, b: 226, a: 255 }
    } else if cell == 'B' {
        Rgba { r: 30, g: 144, b: 255, a: 255 }
    } else if cell == 'T' {
        Rgba { r: 64, g: 224, b: 208, a: 255 }
    } else if cell == 'P' {
        Rgba { r: 255, g: 105, b: 180, a: 255 }
    } else if cell == 'N' {
        Rgba { r: 255, g: 140, b: 0, a: 255 }
    } else if cell == 'g' {
        Rgba { r: 128, g: 128, b: 128, a: 255 }
    } else {
        Rgba { r: 255, g: 255, b: 255, a: 255 }
    }
}

/// The flat colour of a maze symbol, used where a symbol has no texture and
/// in the top-down views.
pub fn cell_to_color(cell: char) -> (c: Rgba)
    ensures
        c == symbol_color(cell),
{
    match cell {
        'A' => Rgba::new(255, 215, 0, 255),
        'R' => Rgba::new(220, 20, 60, 255),
        'V' => Rgba::new(50, 205, 50, 255),
        'M' => Rgba::new(138, 43, 226, 255),
        'B' => Rgba::new(30, 144, 255, 255),
        'T' => Rgba::new(64, 224, 208, 255),
        'P' => Rgba::new(255, 105, 180, 255),
        'N' => Rgba::new(255, 140, 0, 255),
        'g' => Rgba::gray(),
        _ => Rgba::white(),
    }
}

} // verus!
