//! Errors of the layout core.

use vstd::prelude::*;

verus! {

/// What can go wrong while computing or parsing a layout.
#[derive(Debug, Clone, Copy, PartialEq, Eq, Structural)]
pub enum LayoutError {
    /// The window's extents cannot accommodate the panes and their
    /// dividers.
    GeometryUnderflow,
    /// The layout string is malformed; `offset` is the character position
    /// where reading it failed.
    LayoutParseError { offset: usize },
}

impl LayoutError {
    /// A short description of the error.
    pub fn message(&self) -> (r: &'static str)
        ensures
            r@ == (match self {
                LayoutError::GeometryUnderflow => "geometry underflow"@,
                LayoutError::LayoutParseError { .. } => "layout parse error"@,
            }),
    {
        match self {
            LayoutError::GeometryUnderflow => "geometry underflow",
            LayoutError::LayoutParseError { .. } => "layout parse error",
        }
    }
}

} // verus!
