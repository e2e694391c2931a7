//! Terminal colours.
use vstd::prelude::*;

verus! {

/// One of the sixteen basic colours, or the reset.
pub enum FourBit {
    Black,
    Red,
    Green,
    Yellow,
    Blue,
    Magenta,
    Cyan,
    White,
    Reset,
}

/// A colour of the 256-colour palette.
pub struct EightBit {
    code: u8,
}

/// A true colour.
pub struct TwentyFourBit {
    r: u8,
    g: u8,
    b: u8,
}

} // verus!
