use vstd::prelude::*;

verus! {

/// Color types.
#[derive(Copy, Clone, Debug)]
pub enum Color {
    /// Grayscale
    Y,
    /// Grayscale with alpha
    YA,
    /// Red, green, blue
    RGB,
    /// RGB with alpha
    RGBA,
}

impl Color {
    /// Number of channels of one pixel.
    pub open spec fn channels(self) -> nat {
        match self {
            Color::Y => 1,
            Color::YA => 2,
            Color::RGB => 3,
            Color::RGBA => 4,
        }
    }

    /// The color-type code that the PNG header declares for this format.
    pub open spec fn type_code(self) -> u8 {
        match self {
            Color::Y => 0,
            Color::YA => 4,
            Color::RGB => 2,
            Color::RGBA => 6,
        }
    }

    /// Color depth (number of channels)
    pub fn depth(self) -> (r: u8)
        ensures
            r as nat == self.channels(),
    {
        match self {
            Color::Y => 1,
            Color::YA => 2,
            Color::RGB => 3,
            Color::RGBA => 4,
        }
    }

    /// The color-type code of the PNG header.
    pub(crate) fn ty(self) -> (r: u8)
        ensures
            r == self.type_code(),
    {
        match self {
            Color::Y => 0,
            Color::YA => 4,
            Color::RGB => 2,
            Color::RGBA => 6,
        }
    }
}

} // verus!
