//! Style parameters of a node.

use vstd::prelude::*;

verus! {

/// How a node's content box is derived from its content. All lengths are in layout units.
#[derive(Debug, Clone, Copy, PartialEq, Eq, Structural)]
pub struct NodeStyle {
    /// Widest box of a node whose text wraps; also caps the image footprint.
    pub max_width: u32,
    /// Narrowest box of a node.
    pub min_width: u32,
    /// Lowest box of a node.
    pub min_height: u32,
    /// Nominal glyph size.
    pub font_size: u32,
    /// Space between the content and the border, and between image and text.
    pub padding: u32,
    /// Whether text breaks into lines that fit `max_width`.
    pub text_wrapping: bool,
}

impl NodeStyle {
    /// The style without constraints: every length is zero and text does not wrap.
    pub open spec fn unconstrained() -> NodeStyle {
        NodeStyle {
            max_width: 0,
            min_width: 0,
            min_height: 0,
            font_size: 0,
            padding: 0,
            text_wrapping: false,
        }
    }
}

impl Default for NodeStyle {
    fn default() -> (style: NodeStyle)
        ensures
            style == NodeStyle::unconstrained(),
    {
        NodeStyle {
            max_width: 0,
            min_width: 0,
            min_height: 0,
            font_size: 0,
            padding: 0,
            text_wrapping: false,
        }
    }
}

} // verus!
