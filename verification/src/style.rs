//! Plain-value presentation types: span colors and block alignment.

use vstd::prelude::*;

verus! {

/// An RGBA color with 8-bit channels.  The engine stores colors as data and
/// never interprets them; a host renderer translates them into whatever
/// color type it uses.
#[derive(Clone, Copy, Debug, PartialEq, Eq, Structural)]
pub struct Color {
    /// Red channel.
    pub red: u8,
    /// Green channel.
    pub green: u8,
    /// Blue channel.
    pub blue: u8,
    /// Alpha channel; 255 is opaque.
    pub alpha: u8,
}

impl Color {
    /// Opaque red, the default color for value spans.
    pub fn red() -> (c: Color)
        ensures
            c == (Color { red: 255, green: 0, blue: 0, alpha: 255 }),
    {
        Color { red: 255, green: 0, blue: 0, alpha: 255 }
    }

    /// Opaque white, the default color for label spans.
    pub fn white() -> (c: Color)
        ensures
            c == (Color { red: 255, green: 255, blue: 255, alpha: 255 }),
    {
        Color { red: 255, green: 255, blue: 255, alpha: 255 }
    }
}

/// Justification of the rendered text block.
#[derive(Clone, Copy, Debug, PartialEq, Eq, Structural)]
pub enum TextAlign {
    /// Lines are aligned on their left edge.
    Left,
    /// Lines are centered.
    Center,
    /// Lines are aligned on their right edge.
    Right,
    /// Lines are stretched to fill the block width.
    Justified,
}

} // verus!
