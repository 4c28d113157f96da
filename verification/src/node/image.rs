//! The image of a node, as far as the layout needs it.

use vstd::prelude::*;

verus! {

/// Where the image sits relative to the text.
#[derive(Debug, Clone, Copy, PartialEq, Eq, Structural)]
pub enum ImagePosition {
    Left,
    Right,
    Top,
    Bottom,
}

impl ImagePosition {
    /// Image and text share a row (`Left`, `Right`) rather than a column.
    pub open spec fn is_beside(self) -> bool {
        self is Left || self is Right
    }

    pub fn beside_text(self) -> (b: bool)
        ensures
            b == self.is_beside(),
    {
        match self {
            ImagePosition::Left | ImagePosition::Right => true,
            ImagePosition::Top | ImagePosition::Bottom => false,
        }
    }
}

impl Default for ImagePosition {
    fn default() -> (p: ImagePosition)
        ensures
            p == ImagePosition::Left,
    {
        ImagePosition::Left
    }
}

/// Dimensions of a decoded image, where known, and its placement.
#[derive(Debug, Clone, Copy, PartialEq, Eq, Structural)]
pub struct NodeImage {
    pub width: Option<u32>,
    pub height: Option<u32>,
    pub position: ImagePosition,
}

impl NodeImage {
    /// An image of unknown dimensions, left of the text.
    pub open spec fn unknown() -> NodeImage {
        NodeImage { width: None, height: None, position: ImagePosition::Left }
    }
}

impl Default for NodeImage {
    fn default() -> (image: NodeImage)
        ensures
            image == NodeImage::unknown(),
    {
        NodeImage { width: None, height: None, position: ImagePosition::Left }
    }
}

} // verus!
