//! What a mindmap carries besides its tree.

use vstd::prelude::*;
use crate::mindmap::style::MindmapStyle;

verus! {

#[derive(Debug, Clone, Copy, PartialEq, Eq, Structural)]
pub struct MindmapMetadata {
    pub style: MindmapStyle,
}

impl Default for MindmapMetadata {
    fn default() -> (metadata: MindmapMetadata)
        ensures
            metadata == (MindmapMetadata {
                style: MindmapStyle { padding_horizontal: 0, padding_vertical: 0 },
            }),
    {
        MindmapMetadata { style: MindmapStyle::default() }
    }
}

} // verus!
