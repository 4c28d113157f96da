//! Nodes of the mindmap tree.

pub mod image;
pub mod metrics;
pub mod sizing;
pub mod style;

use vstd::prelude::*;
use crate::layout::pos2::{point_of, Point, Pos2};
use crate::layout::size::{extent_of, Extent, Size};
use crate::node::image::NodeImage;
use crate::node::metrics::{estimated_size, respects_style, text_block};
use crate::node::style::NodeStyle;

verus! {

/// The side of the root on which a branch grows.
#[derive(Debug, Clone, Copy, PartialEq, Eq, Structural)]
pub enum Direction {
    Right,
    Left,
}

impl Default for Direction {
    fn default() -> (d: Direction)
        ensures
            d == Direction::Right,
    {
        Direction::Right
    }
}

/// A node of the tree: content, style, children in rendering order, and the
/// geometry that the layout derives.
#[derive(Debug, PartialEq)]
pub struct Node {
    pub text: Option<String>,
    pub image: Option<NodeImage>,
    pub style_custom: NodeStyle,
    /// `None` and an empty vector both make the node a leaf.
    pub children: Option<Vec<Node>>,
    /// Centre of the node's box, relative to the origin of the layout.
    pub position_from_initial: Option<Pos2>,
    /// Centre of the node's box after it is moved by a reference offset.
    pub position_real: Option<Pos2>,
    /// A copy of the parent, kept only to tell a root from other nodes.
    pub parent: Option<Box<Node>>,
    /// Size of the node's own box.
    pub graphical_size: Option<Size>,
    /// Size of the box around the node's descendants.
    pub children_graphical_size: Option<Size>,
}

/// The mathematical value of a [`Node`].
#[verifier::ext_equal]
pub struct NodeView {
    pub text: Option<Seq<char>>,
    pub image: Option<NodeImage>,
    pub style_custom: NodeStyle,
    pub children: Option<Seq<NodeView>>,
    pub position_from_initial: Option<Point>,
    pub position_real: Option<Point>,
    pub parent: Option<Box<NodeView>>,
    pub graphical_size: Option<Extent>,
    pub children_graphical_size: Option<Extent>,
}

impl NodeView {
    /// Length of the text in bytes; zero without text.
    pub open spec fn text_len(self) -> nat {
        match self.text {
            Some(text) => vstd::utf8::encode_utf8(text).len(),
            None => 0,
        }
    }

    /// Size of the node's own box; zero while it is not computed.
    pub open spec fn intrinsic_size(self) -> Extent {
        match self.graphical_size {
            Some(size) => size,
            None => Extent::zero(),
        }
    }

    /// Size of the box around the descendants; zero while it is not computed.
    pub open spec fn descendants_size(self) -> Extent {
        match self.children_graphical_size {
            Some(size) => size,
            None => Extent::zero(),
        }
    }

    /// Size of the box that the node and its descendants are stacked in:
    /// that of the descendants where it is known, else the node's own.
    pub open spec fn subtree_size(self) -> Extent {
        match self.children_graphical_size {
            Some(size) => size,
            None => self.intrinsic_size(),
        }
    }

    /// The children in order; none for a leaf.
    pub open spec fn child_seq(self) -> Seq<NodeView> {
        match self.children {
            Some(children) => children,
            None => Seq::empty(),
        }
    }

    pub open spec fn is_leaf(self) -> bool {
        self.child_seq().len() == 0
    }

    /// The size of the node's own box, from its text, image and style.
    pub open spec fn estimated_size(self) -> Extent {
        estimated_size(self.text_len(), self.style_custom, self.image)
    }

    /// Vertical space that the node needs among its siblings, without padding.
    pub open spec fn slot_height(self) -> nat {
        if self.descendants_size().height >= self.intrinsic_size().height {
            self.descendants_size().height
        } else {
            self.intrinsic_size().height
        }
    }

    /// Horizontal space that the node and its descendants need beside the parent.
    pub open spec fn branch_width(self, padding_horizontal: nat) -> nat {
        self.intrinsic_size().width + self.descendants_size().width + padding_horizontal
    }

    /// Size of the box around the children: see [`aggregated_size`].
    pub open spec fn aggregated_size(self, padding_vertical: nat, padding_horizontal: nat) -> Extent {
        aggregated_size(self.child_seq(), padding_vertical, padding_horizontal)
    }

    /// The size of descendants that the node is to hold: none for a leaf,
    /// whose subtree is the node itself, else the size of the box around the
    /// children.
    pub open spec fn children_box(self, padding_vertical: nat, padding_horizontal: nat) -> Option<
        Extent,
    > {
        if self.is_leaf() {
            None
        } else {
            Some(self.aggregated_size(padding_vertical, padding_horizontal))
        }
    }
}

/// Sum of the slots of `children`, each followed by `padding_vertical`.
pub open spec fn stacked_height(children: Seq<NodeView>, padding_vertical: nat) -> nat
    decreases children.len(),
{
    if children.len() == 0 {
        0
    } else {
        stacked_height(children.drop_last(), padding_vertical) + children.last().slot_height()
            + padding_vertical
    }
}

/// Width of the widest branch among `children`; zero without children.
pub open spec fn widest_branch(children: Seq<NodeView>, padding_horizontal: nat) -> nat
    decreases children.len(),
{
    if children.len() == 0 {
        0
    } else {
        let rest = widest_branch(children.drop_last(), padding_horizontal);
        let last = children.last().branch_width(padding_horizontal);
        if rest >= last {
            rest
        } else {
            last
        }
    }
}

/// Size of the box in which `children` are stacked: as high as all slots
/// with a padding after each, as wide as the widest branch.
pub open spec fn aggregated_size(
    children: Seq<NodeView>,
    padding_vertical: nat,
    padding_horizontal: nat,
) -> Extent {
    Extent {
        width: widest_branch(children, padding_horizontal),
        height: stacked_height(children, padding_vertical),
    }
}

/// The value of a node: its fields, with the children and the parent by value.
pub open spec fn node_view(node: Node) -> NodeView
    decreases node,
{
    NodeView {
        text: match node.text {
            Some(text) => Some(text@),
            None => None,
        },
        image: node.image,
        style_custom: node.style_custom,
        children: match node.children {
            Some(children) => Some(
                Seq::new(
                    children@.len(),
                    |i: int|
                        if 0 <= i < children@.len() {
                            node_view(children@[i])
                        } else {
                            arbitrary()
                        },
                ),
            ),
            None => None,
        },
        position_from_initial: point_of(node.position_from_initial),
        position_real: point_of(node.position_real),
        parent: match node.parent {
            Some(parent) => Some(Box::new(node_view(*parent))),
            None => None,
        },
        graphical_size: extent_of(node.graphical_size),
        children_graphical_size: extent_of(node.children_graphical_size),
    }
}

impl View for Node {
    type V = NodeView;

    open spec fn view(&self) -> NodeView {
        node_view(*self)
    }
}

/// The values of a sequence of nodes.
pub open spec fn views_of(nodes: Seq<Node>) -> Seq<NodeView> {
    Seq::new(nodes.len(), |i: int| nodes[i]@)
}

/// The children of a node's value are the values of its children.
pub proof fn lemma_view_children(node: Node)
    ensures
        node@.children == match node.children {
            Some(children) => Some(views_of(children@)),
            None => None,
        },
{
    match node.children {
        Some(children) => {
            reveal_with_fuel(node_view, 2);
            assert(node@.children->0 =~= views_of(children@));
        },
        None => {},
    }
}

impl Node {
    /// A node without content, with the default style and an image of unknown dimensions.
    pub fn new() -> (node: Node)
        ensures
            node == (Node {
                text: None,
                image: Some(NodeImage::unknown()),
                style_custom: NodeStyle::unconstrained(),
                children: None,
                position_from_initial: None,
                position_real: None,
                parent: None,
                graphical_size: None,
                children_graphical_size: None,
            }),
    {
        Node {
            text: None,
            children: None,
            style_custom: NodeStyle::default(),
            position_from_initial: None,
            position_real: None,
            parent: None,
            graphical_size: None,
            children_graphical_size: None,
            image: Some(NodeImage::default()),
        }
    }

    /// Sets the text.
    pub fn with_text(&mut self, text: String) -> (node: &mut Node)
        ensures
            *node == (Node { text: Some(text), ..*old(self) }),
            *final(self) == *final(node),
    {
        self.text = Some(text);
        self
    }

    /// Sets the children, in rendering order.
    pub fn with_children(&mut self, children: Vec<Node>) -> (node: &mut Node)
        ensures
            *node == (Node { children: Some(children), ..*old(self) }),
            *final(self) == *final(node),
    {
        self.children = Some(children);
        self
    }

    /// Sets the position relative to the origin of the layout.
    pub fn with_position(&mut self, position: Pos2) -> (node: &mut Node)
        ensures
            *node == (Node { position_from_initial: Some(position), ..*old(self) }),
            *final(self) == *final(node),
    {
        self.position_from_initial = Some(position);
        self
    }

    /// Makes `node` the parent, so that this node is no root.
    pub fn with_parent(&mut self, node: Node) -> (child: &mut Node)
        ensures
            *child == (Node { parent: Some(Box::new(node)), ..*old(self) }),
            *final(self) == *final(child),
    {
        self.parent = Some(Box::new(node));
        self
    }

    /// The children of the node.
    pub fn get_children(&self) -> (children: Option<&Vec<Node>>)
        ensures
            match children {
                Some(c) => self.children == Some(*c),
                None => self.children is None,
            },
    {
        self.children.as_ref()
    }

    /// The size of the node's own box; zero while it is not computed.
    pub fn get_graphical_size(&self) -> (size: Size)
        ensures
            size@ == self@.intrinsic_size(),
            match self.graphical_size {
                Some(s) => size == s,
                None => size == (Size { width: 0, height: 0 }),
            },
    {
        match self.graphical_size {
            Some(size) => size,
            None => Size::default(),
        }
    }

    /// The size of the box that the node and its descendants are stacked in.
    pub fn get_subtree_size(&self) -> (size: Size)
        ensures
            size@ == self@.subtree_size(),
    {
        match self.children_graphical_size {
            Some(size) => size,
            None => self.get_graphical_size(),
        }
    }

    /// Sets the real position to the position relative to the origin, moved
    /// by `-offset`. The node must have that position already.
    pub fn with_position_real(&mut self, offset: &Pos2) -> (node: &Node)
        requires
            old(self).position_from_initial is Some,
            old(self).position_from_initial->0@.minus(offset@).representable(),
        ensures
            point_of(final(self).position_real) == Some(
                old(self).position_from_initial->0@.minus(offset@),
            ),
            *final(self) == (Node { position_real: final(self).position_real, ..*old(self) }),
            *node == *final(self),
    {
        match self.position_from_initial {
            Some(mut position) => {
                position.subtract(offset);
                self.position_real = Some(position);
            },
            None => {},
        }
        self
    }

    /// Length of the text in bytes.
    fn text_length(&self) -> (len: usize)
        ensures
            len == self@.text_len(),
    {
        match &self.text {
            Some(text) => text.as_str().as_bytes().len(),
            None => 0,
        }
    }

    /// The size of the text alone, where each line leaves `offset_width` to something else.
    pub fn get_graphical_text_size(&self, offset_width: u32) -> (size: Size)
        requires
            0 <= text_block(self@.text_len(), self.style_custom, offset_width as int).width
                <= u32::MAX,
            0 <= text_block(self@.text_len(), self.style_custom, offset_width as int).height
                <= u32::MAX,
        ensures
            size.width == text_block(self@.text_len(), self.style_custom, offset_width as int).width,
            size.height == text_block(
                self@.text_len(),
                self.style_custom,
                offset_width as int,
            ).height,
    {
        metrics::measure_text_block(self.text_length(), &self.style_custom, offset_width)
    }

    /// Computes the size of the node's own box and stores it.
    pub fn compute_graphical_size(&mut self) -> (node: &mut Node)
        requires
            old(self)@.estimated_size().representable(),
        ensures
            extent_of(node.graphical_size) == Some(old(self)@.estimated_size()),
            respects_style(node@.intrinsic_size(), node.style_custom),
            *node == (Node { graphical_size: node.graphical_size, ..*old(self) }),
            *final(self) == *final(node),
    {
        let size = metrics::estimate_size(self.text_length(), &self.style_custom, &self.image);
        self.graphical_size = Some(size);
        self
    }

    /// Computes the size of the node's own box and stores it, where it
    /// fits; else leaves the node as it is and returns `false`.
    pub fn try_compute_graphical_size(&mut self) -> (done: bool)
        ensures
            done == old(self)@.estimated_size().representable(),
            done ==> extent_of(final(self).graphical_size) == Some(old(self)@.estimated_size()),
            done ==> respects_style(final(self)@.intrinsic_size(), final(self).style_custom),
            done ==> *final(self) == (Node {
                graphical_size: final(self).graphical_size,
                ..*old(self)
            }),
            !done ==> *final(self) == *old(self),
    {
        match metrics::try_estimate_size(self.text_length(), &self.style_custom, &self.image) {
            Some(size) => {
                self.graphical_size = Some(size);
                true
            },
            None => false,
        }
    }

    /// Size of the box around the children, or `None` for a leaf or where the size does not fit.
    fn aggregate_children(
        &self,
        padding_vertical: u32,
        padding_horizontal: u32,
    ) -> (size: Option<Size>)
        ensures
            size is Some <==> !self@.is_leaf() && self@.aggregated_size(
                padding_vertical as nat,
                padding_horizontal as nat,
            ).representable(),
            size matches Some(s) ==> s@ == self@.aggregated_size(
                padding_vertical as nat,
                padding_horizontal as nat,
            ),
    {
        match &self.children {
            None => None,
            Some(children) => {
                let n = children.len();
                if n == 0 {
                    return None;
                }
                let ghost views = views_of(children@);
                proof {
                    lemma_view_children(*self);
                }
                let mut height: u128 = 0;
                let mut width: u64 = 0;
                let mut i: usize = 0;
                while i < n
                    invariant
                        i <= n,
                        n == children.len(),
                        views == views_of(children@),
                        height == stacked_height(views.take(i as int), padding_vertical as nat),
                        width == widest_branch(views.take(i as int), padding_horizontal as nat),
                        height <= i * 0x2_0000_0000,
                        width <= 0x3_0000_0000,
                    decreases n - i,
                {
                    let child = &children[i];
                    let own = child.get_graphical_size();
                    let below = match child.children_graphical_size {
                        Some(size) => size,
                        None => Size::default(),
                    };
                    let slot = if below.height >= own.height {
                        below.height
                    } else {
                        own.height
                    };
                    let branch = own.width as u64 + below.width as u64 + padding_horizontal as u64;
                    proof {
                        assert(views.take(i + 1).drop_last() =~= views.take(i as int));
                        assert(views.take(i + 1).last() == child@);
                    }
                    height = height + slot as u128 + padding_vertical as u128;
                    if branch > width {
                        width = branch;
                    }
                    i += 1;
                }
                proof {
                    assert(views.take(n as int) =~= views);
                }
                if height > u32::MAX as u128 || width > u32::MAX as u64 {
                    None
                } else {
                    Some(Size { width: width as u32, height: height as u32 })
                }
            },
        }
    }

    /// Computes the size of the box around the children and stores it. The
    /// children's own sizes, and their children's, are read as they are. A
    /// leaf gets no such size: its subtree is the node itself.
    pub fn compute_children_graphical_size(
        &mut self,
        padding_vertical: u32,
        padding_horizontal: u32,
    ) -> (node: &mut Node)
        requires
            old(self)@.aggregated_size(
                padding_vertical as nat,
                padding_horizontal as nat,
            ).representable(),
        ensures
            extent_of(node.children_graphical_size) == old(self)@.children_box(
                padding_vertical as nat,
                padding_horizontal as nat,
            ),
            *node == (Node { children_graphical_size: node.children_graphical_size, ..*old(self) }),
            node@.is_leaf() ==> node@.subtree_size() == node@.intrinsic_size(),
            *final(self) == *final(node),
    {
        let size = self.aggregate_children(padding_vertical, padding_horizontal);
        self.children_graphical_size = size;
        self
    }

    /// Computes the size of the box around the children and stores it, where
    /// it fits; else leaves the node as it is and returns `false`.
    pub fn try_compute_children_graphical_size(
        &mut self,
        padding_vertical: u32,
        padding_horizontal: u32,
    ) -> (done: bool)
        ensures
            done == old(self)@.aggregated_size(
                padding_vertical as nat,
                padding_horizontal as nat,
            ).representable(),
            done ==> extent_of(final(self).children_graphical_size) == old(self)@.children_box(
                padding_vertical as nat,
                padding_horizontal as nat,
            ),
            done ==> *final(self) == (Node {
                children_graphical_size: final(self).children_graphical_size,
                ..*old(self)
            }),
            done && final(self)@.is_leaf() ==> final(self)@.subtree_size()
                == final(self)@.intrinsic_size(),
            !done ==> *final(self) == *old(self),
    {
        let size = self.aggregate_children(padding_vertical, padding_horizontal);
        let leaf = match &self.children {
            None => true,
            Some(children) => children.len() == 0,
        };
        if leaf || size.is_some() {
            self.children_graphical_size = size;
            true
        } else {
            false
        }
    }

    /// Whether the node is a root: it has no parent.
    pub fn is_root(&self) -> (root: bool)
        ensures
            root == (self.parent is None),
    {
        self.parent.is_none()
    }
}

impl Node {
    /// A copy of the node, of its parent and of everything below it.
    pub fn duplicate(&self) -> (copy: Node)
        ensures
            copy@ == self@,
        decreases self@,
    {
        proof {
            lemma_view_children(*self);
        }
        let text = match &self.text {
            Some(text) => Some(text.clone()),
            None => None,
        };
        let children = match &self.children {
            None => None,
            Some(children) => {
                let ghost views = views_of(children@);
                let n = children.len();
                let mut copies: Vec<Node> = Vec::new();
                let mut i: usize = 0;
                while i < n
                    invariant
                        i <= n,
                        n == children.len(),
                        copies.len() == i,
                        views == views_of(children@),
                        self@.children == Some(views),
                        forall|j: int| 0 <= j < i ==> (#[trigger] copies@[j])@ == views[j],
                    decreases n - i,
                {
                    proof {
                        assert(decreases_to!(self@ => self@.children));
                        assert(decreases_to!(self@.children => self@.children->0));
                        assert(decreases_to!(views => views[i as int]));
                    }
                    copies.push(children[i].duplicate());
                    i += 1;
                }
                assert(views_of(copies@) =~= views);
                Some(copies)
            },
        };
        let parent = match &self.parent {
            Some(parent) => {
                proof {
                    assert(decreases_to!(self@ => self@.parent));
                    assert(decreases_to!(self@.parent => self@.parent->0));
                    assert(*self@.parent->0 == (**parent)@);
                }
                Some(Box::new(parent.duplicate()))
            },
            None => None,
        };
        let copy = Node {
            text,
            image: self.image,
            style_custom: self.style_custom,
            children,
            position_from_initial: self.position_from_initial,
            position_real: self.position_real,
            parent,
            graphical_size: self.graphical_size,
            children_graphical_size: self.children_graphical_size,
        };
        proof {
            lemma_view_children(copy);
        }
        assert(copy@ =~= self@);
        copy
    }
}

impl Clone for Node {
    fn clone(&self) -> (copy: Node)
        ensures
            copy@ == self@,
    {
        self.duplicate()
    }
}

impl Default for Node {
    /// A node without content and without image.
    fn default() -> (node: Node)
        ensures
            node == (Node {
                text: None,
                image: None,
                style_custom: NodeStyle::unconstrained(),
                children: None,
                position_from_initial: None,
                position_real: None,
                parent: None,
                graphical_size: None,
                children_graphical_size: None,
            }),
    {
        Node {
            text: None,
            image: None,
            style_custom: NodeStyle::default(),
            children: None,
            position_from_initial: None,
            position_real: None,
            parent: None,
            graphical_size: None,
            children_graphical_size: None,
        }
    }
}

} // verus!
