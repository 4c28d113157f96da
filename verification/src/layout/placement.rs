//! Where the left/right horizontal layout puts each node, stated over the
//! values of the nodes with unbounded coordinates.
//!
//! A forest is stacked downwards from a top line: each tree gets a slot as
//! high as its subtree, followed by the vertical padding, and sits in the
//! middle of its slot. A node is pushed away from its parent, to the side on
//! which the branch grows, by half of both widths and the horizontal padding.

use vstd::prelude::*;
use crate::layout::pos2::Point;
use crate::mindmap::MindmapView;
use crate::node::NodeView;

verus! {

/// How a branch grows: to which side of its root, and with how much space
/// between the boxes.
pub struct Fan {
    /// `1` for a branch that grows to the right, `-1` for one that grows to the left.
    pub side: int,
    /// Space between a node and its children.
    pub padding_horizontal: nat,
    /// Space below each subtree in a stack of siblings.
    pub padding_vertical: nat,
}

impl Fan {
    /// The fan of the given machine values.
    pub open spec fn of(side: i64, padding_horizontal: u32, padding_vertical: u32) -> Fan {
        Fan {
            side: side as int,
            padding_horizontal: padding_horizontal as nat,
            padding_vertical: padding_vertical as nat,
        }
    }

    /// The fan to the right of the root.
    pub open spec fn rightwards(padding_horizontal: nat, padding_vertical: nat) -> Fan {
        Fan { side: 1, padding_horizontal, padding_vertical }
    }

    /// The fan to the left of the root.
    pub open spec fn leftwards(padding_horizontal: nat, padding_vertical: nat) -> Fan {
        Fan { side: -1, padding_horizontal, padding_vertical }
    }

    /// The side is the right or the left.
    pub open spec fn has_side(self) -> bool {
        self.side == 1 || self.side == -1
    }
}

/// Horizontal distance between the centre of a node and the centre of its parent.
pub open spec fn outward_offset(node_width: nat, parent_width: nat, padding_horizontal: nat) -> nat {
    node_width / 2 + padding_horizontal + parent_width / 2
}

/// Distance from the top of a stacked forest to the top of the slot of tree `i`:
/// the subtree heights of the trees before it, each with `padding_vertical` added.
pub open spec fn stack_top(forest: Seq<NodeView>, i: int, padding_vertical: nat) -> int
    decreases i,
{
    if i <= 0 {
        0
    } else {
        stack_top(forest, i - 1, padding_vertical) + forest[i - 1].subtree_size().height
            + padding_vertical
    }
}

/// Vertical centre of tree `i` of a forest that is stacked downwards from `top`.
pub open spec fn stack_center(forest: Seq<NodeView>, i: int, top: int, padding_vertical: nat) -> int {
    top + stack_top(forest, i, padding_vertical) + forest[i].subtree_size().height / 2
}

/// Top line of the stack of a node's children when the node is centred at
/// `center_y`: half the height of the box around the descendants above the
/// centre. Where that box is not computed its height counts as zero, and the
/// stack begins at the centre.
pub open spec fn children_top(node: NodeView, center_y: int) -> int {
    center_y - node.descendants_size().height / 2
}

/// The x coordinate of a node beside a parent of width `parent_width` that is centred at `parent_x`.
pub open spec fn placed_x(node: NodeView, parent_x: int, parent_width: nat, fan: Fan) -> int {
    parent_x + fan.side * outward_offset(
        node.intrinsic_size().width,
        parent_width,
        fan.padding_horizontal,
    )
}

/// The node after placement beside a parent of width `parent_width` whose
/// centre is at `anchor.x`, with the node's own centre at height `anchor.y`:
/// the node and all its descendants have their positions set, nothing else changes.
pub open spec fn place_node(node: NodeView, anchor: Point, parent_width: nat, fan: Fan) -> NodeView
    decreases node,
{
    let x = placed_x(node, anchor.x, parent_width, fan);
    NodeView {
        position_from_initial: Some(Point { x, y: anchor.y }),
        children: match node.children {
            None => None,
            Some(children) => Some(
                Seq::new(
                    children.len(),
                    |i: int|
                        if 0 <= i < children.len() {
                            place_node(
                                children[i],
                                Point {
                                    x,
                                    y: stack_center(
                                        children,
                                        i,
                                        children_top(node, anchor.y),
                                        fan.padding_vertical,
                                    ),
                                },
                                node.intrinsic_size().width,
                                fan,
                            )
                        } else {
                            arbitrary()
                        },
                ),
            ),
        },
        ..node
    }
}

/// The forest after placement beside a parent of width `parent_width` whose
/// centre is at `x`, stacked downwards from `top`.
pub open spec fn place_forest(
    forest: Seq<NodeView>,
    x: int,
    top: int,
    parent_width: nat,
    fan: Fan,
) -> Seq<NodeView> {
    Seq::new(
        forest.len(),
        |i: int|
            place_node(
                forest[i],
                Point { x, y: stack_center(forest, i, top, fan.padding_vertical) },
                parent_width,
                fan,
            ),
    )
}

/// The children of a placed node are its children, placed as a forest beside it.
pub proof fn lemma_place_node_children(node: NodeView, anchor: Point, parent_width: nat, fan: Fan)
    ensures
        place_node(node, anchor, parent_width, fan).children == match node.children {
            None => None,
            Some(children) => Some(
                place_forest(
                    children,
                    placed_x(node, anchor.x, parent_width, fan),
                    children_top(node, anchor.y),
                    node.intrinsic_size().width,
                    fan,
                ),
            ),
        },
{
    reveal_with_fuel(place_node, 2);
    match node.children {
        None => {},
        Some(children) => {
            assert(place_node(node, anchor, parent_width, fan).children->0 =~= place_forest(
                children,
                placed_x(node, anchor.x, parent_width, fan),
                children_top(node, anchor.y),
                node.intrinsic_size().width,
                fan,
            ));
        },
    }
}

/// Every position in the tree is one that a machine position can hold.
pub open spec fn positions_fit(node: NodeView) -> bool
    decreases node,
{
    &&& node.position_from_initial matches Some(p) ==> p.representable()
    &&& node.children matches Some(children) ==> forall|i: int|
        0 <= i < children.len() ==> positions_fit(#[trigger] children[i])
}

/// Every position in every tree of the forest fits.
pub open spec fn forest_fits(forest: Seq<NodeView>) -> bool {
    forall|i: int| 0 <= i < forest.len() ==> positions_fit(#[trigger] forest[i])
}

/// The positions of a tree fit exactly if the root's position fits and the children's do.
pub proof fn lemma_positions_fit_unfold(node: NodeView)
    ensures
        positions_fit(node) <==> {
            &&& node.position_from_initial matches Some(p) ==> p.representable()
            &&& node.children matches Some(children) ==> forest_fits(children)
        },
{
    reveal_with_fuel(positions_fit, 2);
}

/// Upper edge of the node's own box. Meaningful for a positioned node.
pub open spec fn box_top(node: NodeView) -> int {
    node.position_from_initial->0.y - node.intrinsic_size().height / 2
}

/// Lower edge of the node's own box. Meaningful for a positioned node.
pub open spec fn box_bottom(node: NodeView) -> int {
    node.position_from_initial->0.y + node.intrinsic_size().height / 2
}

/// The highest upper edge among the positioned nodes of `children`; `None` where none is positioned.
pub open spec fn upper_edge(children: Seq<NodeView>) -> Option<int>
    decreases children.len(),
{
    if children.len() == 0 {
        None
    } else {
        let rest = upper_edge(children.drop_last());
        let last = children.last();
        if last.position_from_initial is None {
            rest
        } else if rest is Some && rest->0 <= box_top(last) {
            rest
        } else {
            Some(box_top(last))
        }
    }
}

/// The lowest lower edge among the positioned nodes of `children`; `None` where none is positioned.
pub open spec fn lower_edge(children: Seq<NodeView>) -> Option<int>
    decreases children.len(),
{
    if children.len() == 0 {
        None
    } else {
        let rest = lower_edge(children.drop_last());
        let last = children.last();
        if last.position_from_initial is None {
            rest
        } else if rest is Some && rest->0 >= box_bottom(last) {
            rest
        } else {
            Some(box_bottom(last))
        }
    }
}

/// Position of a parent over `children`: on the axis `x == 0`, halfway
/// (rounded down) between the upper and the lower edge of the children's own
/// boxes. The origin where no child is positioned.
pub open spec fn parent_center(children: Seq<NodeView>) -> Point {
    match (upper_edge(children), lower_edge(children)) {
        (Some(top), Some(bottom)) => Point { x: 0, y: (top + bottom) / 2 },
        _ => Point { x: 0, y: 0 },
    }
}

/// A parent over children whose positions fit has a position that fits.
pub proof fn lemma_parent_center_fits(children: Seq<NodeView>)
    requires
        forall|i: int|
            0 <= i < children.len() ==> ((#[trigger] children[i]).position_from_initial matches Some(
                p,
            ) ==> p.representable()),
    ensures
        parent_center(children).representable(),
        upper_edge(children) is Some <==> lower_edge(children) is Some,
        upper_edge(children) is Some ==> 2 * i64::MIN <= upper_edge(children)->0 + lower_edge(
            children,
        )->0 <= 2 * i64::MAX,
    decreases children.len(),
{
    if children.len() > 0 {
        let rest = children.drop_last();
        assert forall|i: int| 0 <= i < rest.len() implies ((#[trigger] rest[i]).position_from_initial matches Some(
            p,
        ) ==> p.representable()) by {
            assert(rest[i] == children[i]);
        }
        lemma_parent_center_fits(rest);
        assert(children.last() == children[children.len() - 1]);
    }
}

/// Number of children of the root that go to its right: the first half, and
/// the middle one of an odd number. The others go left.
pub open spec fn split_point(count: nat) -> nat {
    (count + 1) / 2
}

/// The children of the root that are laid out to its right, in order.
pub open spec fn right_forest(children: Seq<NodeView>) -> Seq<NodeView> {
    children.subrange(0, split_point(children.len()) as int)
}

/// The children of the root that are laid out to its left, in order.
pub open spec fn left_forest(children: Seq<NodeView>) -> Seq<NodeView> {
    children.subrange(split_point(children.len()) as int, children.len() as int)
}

/// The children of a root of width `root_width` after placement: both
/// forests are stacked downwards from the origin, one on each side.
pub open spec fn fan_out(
    children: Seq<NodeView>,
    root_width: nat,
    padding_horizontal: nat,
    padding_vertical: nat,
) -> Seq<NodeView> {
    place_forest(
        right_forest(children),
        0,
        0,
        root_width,
        Fan::rightwards(padding_horizontal, padding_vertical),
    ) + place_forest(
        left_forest(children),
        0,
        0,
        root_width,
        Fan::leftwards(padding_horizontal, padding_vertical),
    )
}

/// The root after layout: its children fanned out, itself centred over them.
pub open spec fn layout_root(root: NodeView, padding_horizontal: nat, padding_vertical: nat) -> NodeView {
    let placed = fan_out(
        root.child_seq(),
        root.intrinsic_size().width,
        padding_horizontal,
        padding_vertical,
    );
    NodeView {
        children: match root.children {
            Some(_) => Some(placed),
            None => None,
        },
        position_from_initial: Some(parent_center(placed)),
        ..root
    }
}

/// The mindmap after layout: its root laid out with the paddings of its style.
pub open spec fn laid_out(mindmap: MindmapView) -> MindmapView {
    match mindmap.data {
        None => mindmap,
        Some(root) => MindmapView {
            data: Some(
                layout_root(
                    root,
                    mindmap.metadata.style.padding_horizontal as nat,
                    mindmap.metadata.style.padding_vertical as nat,
                ),
            ),
            ..mindmap
        },
    }
}

/// Every position in the mindmap is one that a machine position can hold.
pub open spec fn mindmap_fits(mindmap: MindmapView) -> bool {
    mindmap.data matches Some(root) ==> positions_fit(root)
}

} // verus!
