//! Plain RGB color values.

use vstd::prelude::*;

verus! {

/// A color with three 8-bit channels, compared and hashed by value.
#[derive(Clone, Copy, Debug, PartialEq, Eq, Hash, Structural)]
pub struct Color {
    pub red: u8,
    pub green: u8,
    pub blue: u8,
}

impl Color {
    /// Unpacks a `0xRRGGBB` value into its three channels.
    pub fn from_hex(value: usize) -> (c: Color)
        ensures
            c.red == (value as int / 0x10000) % 0x100,
            c.green == (value as int / 0x100) % 0x100,
            c.blue == value as int % 0x100,
    {
        Color {
            red: ((value / 0x10000) % 0x100) as u8,
            green: ((value / 0x100) % 0x100) as u8,
            blue: (value % 0x100) as u8,
        }
    }

    /// Packs the three channels back into a `0xRRGGBB` value.
    pub fn to_hex(&self) -> (r: usize)
        ensures
            r == self.red * 0x10000 + self.green * 0x100 + self.blue,
    {
        (self.red as usize) * 0x10000 + (self.green as usize) * 0x100 + (self.blue as usize)
    }
}

impl Default for Color {
    /// The all-zero (black) color.
    fn default() -> (c: Self)
        ensures
            c.red == 0 && c.green == 0 && c.blue == 0,
    {
        Color { red: 0, green: 0, blue: 0 }
    }
}

} // verus!
