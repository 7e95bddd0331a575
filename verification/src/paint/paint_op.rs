//! Kinds of paint operations.

use vstd::prelude::*;

verus! {

/// The visual decorations of a text run.
#[derive(Debug, Clone, Copy, PartialEq, Eq)]
pub enum TextDecorationKind {
    Underline,
    Strikethrough,
    EmphasisDot,
}

impl TextDecorationKind {
    /// The name of the decoration in layer-tree exports.
    pub fn as_str(self) -> (r: &'static str)
        ensures
            r == match self {
                TextDecorationKind::Underline => "underline",
                TextDecorationKind::Strikethrough => "strikethrough",
                TextDecorationKind::EmphasisDot => "emphasisDot",
            },
    {
        match self {
            TextDecorationKind::Underline => "underline",
            TextDecorationKind::Strikethrough => "strikethrough",
            TextDecorationKind::EmphasisDot => "emphasisDot",
        }
    }
}

} // verus!
