//! Style parameters of a whole mindmap.

use vstd::prelude::*;

verus! {

/// Space between the boxes of a mindmap, in layout units.
#[derive(Debug, Clone, Copy, PartialEq, Eq, Structural)]
pub struct MindmapStyle {
    /// Space between a node and its children.
    pub padding_horizontal: u32,
    /// Space below each subtree in a stack of siblings.
    pub padding_vertical: u32,
}

impl Default for MindmapStyle {
    fn default() -> (style: MindmapStyle)
        ensures
            style == (MindmapStyle { padding_horizontal: 0, padding_vertical: 0 }),
    {
        MindmapStyle { padding_horizontal: 0, padding_vertical: 0 }
    }
}

} // verus!
