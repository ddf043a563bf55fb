use vstd::prelude::*;

verus! {

/// Horizontal alignment of children within a container, or of an anchor point.
#[derive(Debug, Clone, Copy, PartialEq, Eq, Structural, Default)]
pub enum AlignX {
    #[default]
    Left,
    CenterX,
    Right,
}

/// Vertical alignment of children within a container, or of an anchor point.
#[derive(Debug, Clone, Copy, PartialEq, Eq, Structural, Default)]
pub enum AlignY {
    #[default]
    Top,
    CenterY,
    Bottom,
}

} // verus!
