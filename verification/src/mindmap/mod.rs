//! A mindmap: a tree of nodes and its style.

pub mod metadata;
pub mod style;

use vstd::prelude::*;
use crate::mindmap::metadata::MindmapMetadata;
use crate::mindmap::style::MindmapStyle;
use crate::node::{Node, NodeView};

verus! {

/// A mindmap. Without `data` it is empty.
#[derive(Debug, PartialEq)]
pub struct Mindmap {
    /// The root of the tree.
    pub data: Option<Node>,
    pub metadata: MindmapMetadata,
}

/// The mathematical value of a [`Mindmap`].
#[verifier::ext_equal]
pub struct MindmapView {
    pub data: Option<NodeView>,
    pub metadata: MindmapMetadata,
}

impl View for Mindmap {
    type V = MindmapView;

    open spec fn view(&self) -> MindmapView {
        MindmapView {
            data: match self.data {
                Some(root) => Some(root@),
                None => None,
            },
            metadata: self.metadata,
        }
    }
}

impl Clone for Mindmap {
    fn clone(&self) -> (copy: Mindmap)
        ensures
            copy@ == self@,
    {
        Mindmap {
            data: match &self.data {
                Some(root) => Some(root.duplicate()),
                None => None,
            },
            metadata: self.metadata,
        }
    }
}

impl Default for Mindmap {
    /// The empty mindmap.
    fn default() -> (mindmap: Mindmap)
        ensures
            mindmap == (Mindmap {
                data: None,
                metadata: MindmapMetadata {
                    style: MindmapStyle { padding_horizontal: 0, padding_vertical: 0 },
                },
            }),
    {
        Mindmap { data: None, metadata: MindmapMetadata::default() }
    }
}

} // verus!
