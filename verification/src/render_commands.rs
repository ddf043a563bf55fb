//! The integer parts of render commands.
use vstd::prelude::*;
use crate::engine;
use crate::renderer::FontAsset;

verus! {

/// A text to draw, with its typographic settings (its color is kept by the caller).
#[derive(Debug)]
pub struct Text {
    /// The text content.
    pub text: String,
    /// The font size.
    pub font_size: u16,
    /// The spacing between letters.
    pub letter_spacing: u16,
    /// The line height.
    pub line_height: u16,
    /// The font asset, if one was chosen.
    pub font_asset: Option<&'static FontAsset>,
}

/// The border width on each side of an element, and between its children.
#[derive(Debug, Clone, Copy, PartialEq, Eq, Structural, Default)]
pub struct BorderWidth {
    /// Border width on the left side.
    pub left: u16,
    /// Border width on the right side.
    pub right: u16,
    /// Border width on the top side.
    pub top: u16,
    /// Border width on the bottom side.
    pub bottom: u16,
    /// Border width between child elements.
    pub between_children: u16,
}

impl BorderWidth {
    /// The render command's copy of an element's border widths.
    pub fn from_engine(w: &engine::BorderWidth) -> (r: BorderWidth)
        ensures
            r.left == w.left,
            r.right == w.right,
            r.top == w.top,
            r.bottom == w.bottom,
            r.between_children == w.between_children,
    {
        BorderWidth {
            left: w.left,
            right: w.right,
            top: w.top,
            bottom: w.bottom,
            between_children: w.between_children,
        }
    }
}

} // verus!
