//! What holds of every layout, proved from the definitions in [`super::placement`].

use vstd::prelude::*;
use crate::layout::placement::{
    box_bottom, box_top, children_top, fan_out, laid_out, layout_root, left_forest,
    lemma_place_node_children, lower_edge, outward_offset, parent_center, place_forest,
    place_node, placed_x, right_forest, split_point, stack_center, stack_top, upper_edge, Fan,
};
use crate::layout::pos2::Point;
use crate::mindmap::MindmapView;
use crate::node::{stacked_height, NodeView};

verus! {

/// Splitting drops and duplicates nothing and keeps the order: the right
/// forest followed by the left forest is the sequence of children.
pub proof fn lemma_split_partitions(children: Seq<NodeView>)
    ensures
        right_forest(children) + left_forest(children) == children,
        right_forest(children).len() + left_forest(children).len() == children.len(),
        right_forest(children).len() == split_point(children.len()),
        forall|i: int|
            0 <= i < right_forest(children).len() ==> right_forest(children)[i] == children[i],
        forall|i: int|
            0 <= i < left_forest(children).len() ==> left_forest(children)[i] == children[split_point(
                children.len(),
            ) + i],
{
    assert(right_forest(children) + left_forest(children) =~= children);
}

/// Placement changes positions only: the sizes of a placed node, and the
/// number of its children, are those of the node.
pub proof fn lemma_place_node_keeps_sizes(
    node: NodeView,
    anchor: Point,
    parent_width: nat,
    fan: Fan,
)
    ensures
        ({
            let placed = place_node(node, anchor, parent_width, fan);
            &&& placed.graphical_size == node.graphical_size
            &&& placed.children_graphical_size == node.children_graphical_size
            &&& placed.intrinsic_size() == node.intrinsic_size()
            &&& placed.subtree_size() == node.subtree_size()
            &&& placed.child_seq().len() == node.child_seq().len()
            &&& placed.children is Some <==> node.children is Some
            &&& placed.position_from_initial == Some(
                Point { x: placed_x(node, anchor.x, parent_width, fan), y: anchor.y },
            )
        }),
{
}

/// The top of a slot depends only on the subtree heights of the trees before it.
pub proof fn lemma_stack_top_by_heights(
    forest: Seq<NodeView>,
    other: Seq<NodeView>,
    i: int,
    padding_vertical: nat,
)
    requires
        0 <= i <= forest.len(),
        forest.len() == other.len(),
        forall|j: int|
            0 <= j < i ==> (#[trigger] forest[j]).subtree_size() == (
            #[trigger] other[j]).subtree_size(),
    ensures
        stack_top(forest, i, padding_vertical) == stack_top(other, i, padding_vertical),
    decreases i,
{
    if i > 0 {
        lemma_stack_top_by_heights(forest, other, i - 1, padding_vertical);
        assert(forest[i - 1].subtree_size() == other[i - 1].subtree_size());
    }
}

/// The tops of the slots of a stack do not decrease, and each slot ends
/// where the next begins.
pub proof fn lemma_stack_top_monotone(forest: Seq<NodeView>, i: int, j: int, padding_vertical: nat)
    requires
        0 <= i <= j <= forest.len(),
    ensures
        stack_top(forest, i, padding_vertical) <= stack_top(forest, j, padding_vertical),
        i < j ==> stack_top(forest, i, padding_vertical) + forest[i].subtree_size().height
            + padding_vertical <= stack_top(forest, j, padding_vertical),
    decreases j - i,
{
    if i < j {
        lemma_stack_top_monotone(forest, i, j - 1, padding_vertical);
    }
}

/// A box as high as the aggregated height of the children holds their
/// stack: the stack ends where the aggregated height ends, or above.
pub proof fn lemma_aggregated_height_holds_stack(
    children: Seq<NodeView>,
    i: int,
    padding_vertical: nat,
)
    requires
        0 <= i <= children.len(),
    ensures
        stack_top(children, i, padding_vertical) <= stacked_height(
            children.take(i),
            padding_vertical,
        ),
    decreases i,
{
    if i > 0 {
        lemma_aggregated_height_holds_stack(children, i - 1, padding_vertical);
        assert(children.take(i).drop_last() =~= children.take(i - 1));
        assert(children.take(i).last() == children[i - 1]);
    }
}

/// Stacking keeps the order of the forest and lets no two subtree boxes
/// overlap: of two trees of a placed forest, the earlier one lies above the
/// later one, with at least the vertical padding between the lower edge of
/// its subtree box and the upper edge of the other's.
pub proof fn lemma_stack_is_ordered(
    forest: Seq<NodeView>,
    x: int,
    top: int,
    parent_width: nat,
    fan: Fan,
    i: int,
    j: int,
)
    requires
        0 <= i < j < forest.len(),
    ensures
        ({
            let placed = place_forest(forest, x, top, parent_width, fan);
            let upper = placed[i].position_from_initial->0.y;
            let lower = placed[j].position_from_initial->0.y;
            &&& placed[i].position_from_initial is Some
            &&& placed[j].position_from_initial is Some
            &&& upper <= lower
            &&& upper + placed[i].subtree_size().height / 2 + fan.padding_vertical <= lower
                - placed[j].subtree_size().height / 2
        }),
{
    lemma_stack_top_monotone(forest, i, j, fan.padding_vertical);
    lemma_place_node_keeps_sizes(
        forest[i],
        Point { x, y: stack_center(forest, i, top, fan.padding_vertical) },
        parent_width,
        fan,
    );
    lemma_place_node_keeps_sizes(
        forest[j],
        Point { x, y: stack_center(forest, j, top, fan.padding_vertical) },
        parent_width,
        fan,
    );
}

/// The trees of the forest lie one below the other in their order: each has
/// a position, the earlier of two is not below the later, and between the
/// lower edge of its subtree box and the upper edge of the other's there is
/// at least `padding_vertical`.
pub open spec fn stack_is_ordered(forest: Seq<NodeView>, padding_vertical: nat) -> bool {
    forall|i: int, j: int|
        #![trigger forest[i], forest[j]]
        0 <= i < j < forest.len() ==> {
            &&& forest[i].position_from_initial is Some
            &&& forest[j].position_from_initial is Some
            &&& forest[i].position_from_initial->0.y <= forest[j].position_from_initial->0.y
            &&& forest[i].position_from_initial->0.y + forest[i].subtree_size().height / 2
                + padding_vertical <= forest[j].position_from_initial->0.y
                - forest[j].subtree_size().height / 2
        }
}

/// A placed forest is ordered.
pub proof fn lemma_placed_stack_is_ordered(
    forest: Seq<NodeView>,
    x: int,
    top: int,
    parent_width: nat,
    fan: Fan,
)
    ensures
        stack_is_ordered(place_forest(forest, x, top, parent_width, fan), fan.padding_vertical),
{
    let placed = place_forest(forest, x, top, parent_width, fan);
    assert forall|i: int, j: int|
        #![trigger placed[i], placed[j]]
        0 <= i < j < placed.len() implies {
        &&& placed[i].position_from_initial is Some
        &&& placed[j].position_from_initial is Some
        &&& placed[i].position_from_initial->0.y <= placed[j].position_from_initial->0.y
        &&& placed[i].position_from_initial->0.y + placed[i].subtree_size().height / 2
            + fan.padding_vertical <= placed[j].position_from_initial->0.y
            - placed[j].subtree_size().height / 2
    } by {
        lemma_stack_is_ordered(forest, x, top, parent_width, fan, i, j);
    }
}

/// In the whole tree, the children of each node are ordered as
/// [`stack_is_ordered`] says.
pub open spec fn stacks_are_ordered(node: NodeView, padding_vertical: nat) -> bool
    decreases node,
{
    node.children matches Some(children) ==> {
        &&& stack_is_ordered(children, padding_vertical)
        &&& forall|i: int|
            0 <= i < children.len() ==> stacks_are_ordered(#[trigger] children[i], padding_vertical)
    }
}

/// Placement keeps the order of the children of every node, and lets no two
/// of their subtree boxes overlap.
pub proof fn lemma_placement_orders_stacks(
    node: NodeView,
    anchor: Point,
    parent_width: nat,
    fan: Fan,
)
    ensures
        stacks_are_ordered(place_node(node, anchor, parent_width, fan), fan.padding_vertical),
    decreases node,
{
    reveal_with_fuel(stacks_are_ordered, 2);
    let placed = place_node(node, anchor, parent_width, fan);
    lemma_place_node_children(node, anchor, parent_width, fan);
    match node.children {
        None => {},
        Some(children) => {
            let x = placed_x(node, anchor.x, parent_width, fan);
            let top = children_top(node, anchor.y);
            lemma_placed_stack_is_ordered(children, x, top, node.intrinsic_size().width, fan);
            assert forall|i: int| 0 <= i < children.len() implies stacks_are_ordered(
                #[trigger] placed.children->0[i],
                fan.padding_vertical,
            ) by {
                lemma_placement_orders_stacks(
                    children[i],
                    Point { x, y: stack_center(children, i, top, fan.padding_vertical) },
                    node.intrinsic_size().width,
                    fan,
                );
            }
        },
    }
}

/// Where placement puts child `k` of a node: beside the node, and at the
/// height of the node, less half the height of the box around the
/// descendants, plus the slots of the children before it, plus half its own
/// slot.
pub proof fn lemma_placed_child(
    node: NodeView,
    anchor: Point,
    parent_width: nat,
    fan: Fan,
    k: int,
)
    requires
        0 <= k < node.child_seq().len(),
    ensures
        ({
            let placed = place_node(node, anchor, parent_width, fan);
            let x = placed_x(node, anchor.x, parent_width, fan);
            let children = node.child_seq();
            &&& placed.child_seq().len() == children.len()
            &&& placed.child_seq()[k].position_from_initial == Some(
                Point {
                    x: placed_x(children[k], x, node.intrinsic_size().width, fan),
                    y: anchor.y - node.descendants_size().height / 2 + stack_top(
                        children,
                        k,
                        fan.padding_vertical,
                    ) + children[k].subtree_size().height / 2,
                },
            )
        }),
{
    lemma_place_node_children(node, anchor, parent_width, fan);
}

/// Every node of the tree is positioned on its side of the axis `parent_x`
/// of its parent, at the outward offset from it, and so are its descendants
/// relative to their parents.
pub open spec fn fans_outward(node: NodeView, parent_x: int, parent_width: nat, fan: Fan) -> bool
    decreases node,
{
    &&& node.position_from_initial matches Some(p)
    &&& fan.side * (p.x - parent_x) == outward_offset(
        node.intrinsic_size().width,
        parent_width,
        fan.padding_horizontal,
    )
    &&& fan.side == 1 ==> p.x >= parent_x + fan.padding_horizontal
    &&& fan.side == -1 ==> p.x <= parent_x - fan.padding_horizontal
    &&& node.children matches Some(children) ==> forall|i: int|
        0 <= i < children.len() ==> fans_outward(
            #[trigger] children[i],
            p.x,
            node.intrinsic_size().width,
            fan,
        )
}

/// The x coordinate follows the side: every node placed to the right has
/// an x not below that of its parent, every node placed to the left an x not
/// above it, and the two differ by at least the horizontal padding.
pub proof fn lemma_placement_fans_outward(
    node: NodeView,
    anchor: Point,
    parent_width: nat,
    fan: Fan,
)
    requires
        fan.has_side(),
    ensures
        fans_outward(place_node(node, anchor, parent_width, fan), anchor.x, parent_width, fan),
    decreases node,
{
    reveal_with_fuel(fans_outward, 2);
    let placed = place_node(node, anchor, parent_width, fan);
    lemma_place_node_children(node, anchor, parent_width, fan);
    let x = placed_x(node, anchor.x, parent_width, fan);
    match node.children {
        None => {},
        Some(children) => {
            assert forall|i: int| 0 <= i < children.len() implies fans_outward(
                #[trigger] placed.children->0[i],
                x,
                node.intrinsic_size().width,
                fan,
            ) by {
                lemma_placement_fans_outward(
                    children[i],
                    Point {
                        x,
                        y: stack_center(
                            children,
                            i,
                            children_top(node, anchor.y),
                            fan.padding_vertical,
                        ),
                    },
                    node.intrinsic_size().width,
                    fan,
                );
            }
        },
    }
}

/// Placement does not read positions: placing a placed tree gives what
/// placing the tree itself gives.
pub proof fn lemma_place_node_overwrites(
    node: NodeView,
    earlier_anchor: Point,
    earlier_parent_width: nat,
    earlier_fan: Fan,
    anchor: Point,
    parent_width: nat,
    fan: Fan,
)
    ensures
        place_node(
            place_node(node, earlier_anchor, earlier_parent_width, earlier_fan),
            anchor,
            parent_width,
            fan,
        ) == place_node(node, anchor, parent_width, fan),
    decreases node,
{
    let earlier = place_node(node, earlier_anchor, earlier_parent_width, earlier_fan);
    let again = place_node(earlier, anchor, parent_width, fan);
    let direct = place_node(node, anchor, parent_width, fan);
    lemma_place_node_children(node, earlier_anchor, earlier_parent_width, earlier_fan);
    lemma_place_node_children(earlier, anchor, parent_width, fan);
    lemma_place_node_children(node, anchor, parent_width, fan);
    match node.children {
        None => {},
        Some(children) => {
            lemma_place_forest_overwrites(
                children,
                placed_x(node, earlier_anchor.x, earlier_parent_width, earlier_fan),
                children_top(node, earlier_anchor.y),
                node.intrinsic_size().width,
                earlier_fan,
                placed_x(node, anchor.x, parent_width, fan),
                children_top(node, anchor.y),
                node.intrinsic_size().width,
                fan,
            );
        },
    }
    assert(again =~= direct);
}

/// Placing a placed forest gives what placing the forest itself gives.
pub proof fn lemma_place_forest_overwrites(
    forest: Seq<NodeView>,
    earlier_x: int,
    earlier_top: int,
    earlier_parent_width: nat,
    earlier_fan: Fan,
    x: int,
    top: int,
    parent_width: nat,
    fan: Fan,
)
    ensures
        place_forest(
            place_forest(forest, earlier_x, earlier_top, earlier_parent_width, earlier_fan),
            x,
            top,
            parent_width,
            fan,
        ) == place_forest(forest, x, top, parent_width, fan),
    decreases forest,
{
    let earlier = place_forest(forest, earlier_x, earlier_top, earlier_parent_width, earlier_fan);
    let again = place_forest(earlier, x, top, parent_width, fan);
    let direct = place_forest(forest, x, top, parent_width, fan);
    assert forall|j: int| 0 <= j < forest.len() implies (#[trigger] earlier[j]).subtree_size()
        == (#[trigger] forest[j]).subtree_size() by {}
    assert forall|i: int| 0 <= i < forest.len() implies #[trigger] again[i] == direct[i] by {
        lemma_stack_top_by_heights(earlier, forest, i, fan.padding_vertical);
        assert(earlier[i].subtree_size() == forest[i].subtree_size());
        lemma_place_node_overwrites(
            forest[i],
            Point {
                x: earlier_x,
                y: stack_center(forest, i, earlier_top, earlier_fan.padding_vertical),
            },
            earlier_parent_width,
            earlier_fan,
            Point { x, y: stack_center(forest, i, top, fan.padding_vertical) },
            parent_width,
            fan,
        );
    }
    assert(again =~= direct);
}

/// Laying out is idempotent: the layout of a laid-out root is that root.
pub proof fn lemma_layout_root_idempotent(
    root: NodeView,
    padding_horizontal: nat,
    padding_vertical: nat,
)
    ensures
        layout_root(
            layout_root(root, padding_horizontal, padding_vertical),
            padding_horizontal,
            padding_vertical,
        ) == layout_root(root, padding_horizontal, padding_vertical),
{
    let once = layout_root(root, padding_horizontal, padding_vertical);
    let twice = layout_root(once, padding_horizontal, padding_vertical);
    let width = root.intrinsic_size().width;
    let children = root.child_seq();
    let placed = fan_out(children, width, padding_horizontal, padding_vertical);
    let rightwards = Fan::rightwards(padding_horizontal, padding_vertical);
    let leftwards = Fan::leftwards(padding_horizontal, padding_vertical);
    let right = place_forest(right_forest(children), 0, 0, width, rightwards);
    let left = place_forest(left_forest(children), 0, 0, width, leftwards);
    assert(placed == right + left);
    assert(placed.len() == children.len());
    if root.children is Some {
        assert(once.child_seq() == placed);
        assert(right_forest(placed) =~= right);
        assert(left_forest(placed) =~= left);
        lemma_place_forest_overwrites(
            right_forest(children),
            0,
            0,
            width,
            rightwards,
            0,
            0,
            width,
            rightwards,
        );
        lemma_place_forest_overwrites(
            left_forest(children),
            0,
            0,
            width,
            leftwards,
            0,
            0,
            width,
            leftwards,
        );
        assert(fan_out(placed, width, padding_horizontal, padding_vertical) == placed);
    } else {
        assert(once.child_seq() =~= children);
    }
    assert(twice =~= once);
}

/// Laying out is idempotent: a second layout of a mindmap changes nothing.
pub proof fn lemma_layout_idempotent(mindmap: MindmapView)
    ensures
        laid_out(laid_out(mindmap)) == laid_out(mindmap),
{
    match mindmap.data {
        None => {},
        Some(root) => {
            lemma_layout_root_idempotent(
                root,
                mindmap.metadata.style.padding_horizontal as nat,
                mindmap.metadata.style.padding_vertical as nat,
            );
        },
    }
}

/// The edges over which a parent is centred are the extremes of the
/// children's boxes: the upper edge is the upper edge of one positioned
/// child and above no other, the lower edge likewise, and there is no edge
/// exactly where no child is positioned.
pub proof fn lemma_edges_are_extremes(children: Seq<NodeView>)
    ensures
        upper_edge(children) is None <==> forall|i: int|
            0 <= i < children.len() ==> (#[trigger] children[i]).position_from_initial is None,
        lower_edge(children) is None <==> upper_edge(children) is None,
        upper_edge(children) matches Some(top) ==> {
            &&& exists|i: int|
                0 <= i < children.len() && (#[trigger] children[i]).position_from_initial is Some
                    && box_top(children[i]) == top
            &&& forall|i: int|
                0 <= i < children.len() && (#[trigger] children[i]).position_from_initial is Some
                    ==> top <= box_top(children[i])
        },
        lower_edge(children) matches Some(bottom) ==> {
            &&& exists|i: int|
                0 <= i < children.len() && (#[trigger] children[i]).position_from_initial is Some
                    && box_bottom(children[i]) == bottom
            &&& forall|i: int|
                0 <= i < children.len() && (#[trigger] children[i]).position_from_initial is Some
                    ==> bottom >= box_bottom(children[i])
        },
    decreases children.len(),
{
    if children.len() > 0 {
        let rest = children.drop_last();
        let last = children.last();
        lemma_edges_are_extremes(rest);
        assert(forall|i: int| 0 <= i < rest.len() ==> rest[i] == children[i]);
        assert(last == children[children.len() - 1]);
        if upper_edge(children) is Some {
            let top = upper_edge(children)->0;
            if last.position_from_initial is Some && box_top(last) == top {
                assert(children[children.len() - 1].position_from_initial is Some);
            } else {
                let i = choose|i: int|
                    0 <= i < rest.len() && (#[trigger] rest[i]).position_from_initial is Some
                        && box_top(rest[i]) == top;
                assert(children[i].position_from_initial is Some && box_top(children[i]) == top);
            }
        }
        if lower_edge(children) is Some {
            let bottom = lower_edge(children)->0;
            if last.position_from_initial is Some && box_bottom(last) == bottom {
                assert(children[children.len() - 1].position_from_initial is Some);
            } else {
                let i = choose|i: int|
                    0 <= i < rest.len() && (#[trigger] rest[i]).position_from_initial is Some
                        && box_bottom(rest[i]) == bottom;
                assert(children[i].position_from_initial is Some && box_bottom(children[i])
                    == bottom);
            }
        }
        if upper_edge(children) is None {
            assert forall|i: int| 0 <= i < children.len() implies (
            #[trigger] children[i]).position_from_initial is None by {
                if i < rest.len() {
                    assert(rest[i] == children[i]);
                }
            }
        }
    }
}

/// After layout the root is centred over its children as they then are: it
/// lies on the axis `x == 0`, halfway between the upper and the lower edge
/// of their boxes.
pub proof fn lemma_root_is_centered(root: NodeView, padding_horizontal: nat, padding_vertical: nat)
    ensures
        ({
            let after = layout_root(root, padding_horizontal, padding_vertical);
            after.position_from_initial == Some(parent_center(after.child_seq()))
        }),
{
    let after = layout_root(root, padding_horizontal, padding_vertical);
    if root.children is None {
        assert(fan_out(
            root.child_seq(),
            root.intrinsic_size().width,
            padding_horizontal,
            padding_vertical,
        ) =~= after.child_seq());
    }
}

/// The node and each of its descendants has a position.
pub open spec fn fully_positioned(node: NodeView) -> bool
    decreases node,
{
    &&& node.position_from_initial is Some
    &&& node.children matches Some(children) ==> forall|i: int|
        0 <= i < children.len() ==> fully_positioned(#[trigger] children[i])
}

/// Placement gives a position to every node of the tree.
pub proof fn lemma_placement_reaches_all(
    node: NodeView,
    anchor: Point,
    parent_width: nat,
    fan: Fan,
)
    ensures
        fully_positioned(place_node(node, anchor, parent_width, fan)),
    decreases node,
{
    reveal_with_fuel(fully_positioned, 2);
    let placed = place_node(node, anchor, parent_width, fan);
    lemma_place_node_children(node, anchor, parent_width, fan);
    match node.children {
        None => {},
        Some(children) => {
            assert forall|i: int| 0 <= i < children.len() implies fully_positioned(
                #[trigger] placed.children->0[i],
            ) by {
                lemma_placement_reaches_all(
                    children[i],
                    Point {
                        x: placed_x(node, anchor.x, parent_width, fan),
                        y: stack_center(
                            children,
                            i,
                            children_top(node, anchor.y),
                            fan.padding_vertical,
                        ),
                    },
                    node.intrinsic_size().width,
                    fan,
                );
            }
        },
    }
}

/// Layout gives a position to the root and to every node below it.
pub proof fn lemma_layout_reaches_all(root: NodeView, padding_horizontal: nat, padding_vertical: nat)
    ensures
        fully_positioned(layout_root(root, padding_horizontal, padding_vertical)),
{
    reveal_with_fuel(fully_positioned, 2);
    let after = layout_root(root, padding_horizontal, padding_vertical);
    let children = root.child_seq();
    let width = root.intrinsic_size().width;
    let right = right_forest(children);
    let left = left_forest(children);
    if root.children is Some {
        assert forall|i: int| 0 <= i < after.children->0.len() implies fully_positioned(
            #[trigger] after.children->0[i],
        ) by {
            if i < right.len() {
                lemma_placement_reaches_all(
                    right[i],
                    Point { x: 0, y: stack_center(right, i, 0, padding_vertical) },
                    width,
                    Fan::rightwards(padding_horizontal, padding_vertical),
                );
            } else {
                let k = i - right.len();
                lemma_placement_reaches_all(
                    left[k],
                    Point { x: 0, y: stack_center(left, k, 0, padding_vertical) },
                    width,
                    Fan::leftwards(padding_horizontal, padding_vertical),
                );
            }
        }
    }
}

/// In a laid-out mindmap every child of the root fans outward from the
/// axis of the root: those of the right forest to the right, the others to
/// the left, and their descendants further out.
pub proof fn lemma_layout_fans_outward(
    root: NodeView,
    padding_horizontal: nat,
    padding_vertical: nat,
    i: int,
)
    requires
        0 <= i < root.child_seq().len(),
    ensures
        ({
            let after = layout_root(root, padding_horizontal, padding_vertical);
            let width = root.intrinsic_size().width;
            &&& after.child_seq().len() == root.child_seq().len()
            &&& i < split_point(root.child_seq().len()) ==> fans_outward(
                after.child_seq()[i],
                0,
                width,
                Fan::rightwards(padding_horizontal, padding_vertical),
            )
            &&& i >= split_point(root.child_seq().len()) ==> fans_outward(
                after.child_seq()[i],
                0,
                width,
                Fan::leftwards(padding_horizontal, padding_vertical),
            )
        }),
{
    let children = root.child_seq();
    let width = root.intrinsic_size().width;
    let right = right_forest(children);
    let left = left_forest(children);
    if i < right.len() {
        lemma_placement_fans_outward(
            right[i],
            Point { x: 0, y: stack_center(right, i, 0, padding_vertical) },
            width,
            Fan::rightwards(padding_horizontal, padding_vertical),
        );
    } else {
        let k = i - right.len();
        lemma_placement_fans_outward(
            left[k],
            Point { x: 0, y: stack_center(left, k, 0, padding_vertical) },
            width,
            Fan::leftwards(padding_horizontal, padding_vertical),
        );
    }
}

/// Every tree of the forest fans outward from the axis `parent_x`.
pub open spec fn forest_fans_outward(
    forest: Seq<NodeView>,
    parent_x: int,
    parent_width: nat,
    fan: Fan,
) -> bool {
    forall|i: int|
        0 <= i < forest.len() ==> fans_outward(#[trigger] forest[i], parent_x, parent_width, fan)
}

/// Every tree of the forest is fully positioned, with the children of each
/// of its nodes in order.
pub open spec fn forest_is_stacked(forest: Seq<NodeView>, padding_vertical: nat) -> bool {
    forall|i: int|
        0 <= i < forest.len() ==> fully_positioned(#[trigger] forest[i]) && stacks_are_ordered(
            forest[i],
            padding_vertical,
        )
}

/// What holds of a placed forest: every node has a position, the trees and
/// the children of every node keep their order without overlap, and every
/// node lies outward of its parent.
pub proof fn lemma_placed_forest(forest: Seq<NodeView>, x: int, top: int, parent_width: nat, fan: Fan)
    requires
        fan.has_side(),
    ensures
        ({
            let placed = place_forest(forest, x, top, parent_width, fan);
            &&& placed.len() == forest.len()
            &&& stack_is_ordered(placed, fan.padding_vertical)
            &&& forest_is_stacked(placed, fan.padding_vertical)
            &&& forest_fans_outward(placed, x, parent_width, fan)
        }),
{
    let placed = place_forest(forest, x, top, parent_width, fan);
    lemma_placed_stack_is_ordered(forest, x, top, parent_width, fan);
    assert forall|i: int| 0 <= i < placed.len() implies fully_positioned(#[trigger] placed[i])
        && stacks_are_ordered(placed[i], fan.padding_vertical) && fans_outward(
        placed[i],
        x,
        parent_width,
        fan,
    ) by {
        let anchor = Point { x, y: stack_center(forest, i, top, fan.padding_vertical) };
        lemma_placement_reaches_all(forest[i], anchor, parent_width, fan);
        lemma_placement_orders_stacks(forest[i], anchor, parent_width, fan);
        lemma_placement_fans_outward(forest[i], anchor, parent_width, fan);
    }
}

/// The root is laid out: it is centred over its children on the axis
/// `x == 0`; the first half of its children fans out to the right and the
/// second half to the left; on each side the children, and below them the
/// children of every node, keep their order without overlap; and every node
/// has a position.
pub open spec fn well_laid_out(root: NodeView, padding_horizontal: nat, padding_vertical: nat) -> bool {
    let children = root.child_seq();
    let width = root.intrinsic_size().width;
    &&& root.position_from_initial == Some(parent_center(children))
    &&& stack_is_ordered(right_forest(children), padding_vertical)
    &&& stack_is_ordered(left_forest(children), padding_vertical)
    &&& forest_is_stacked(children, padding_vertical)
    &&& forest_fans_outward(
        right_forest(children),
        0,
        width,
        Fan::rightwards(padding_horizontal, padding_vertical),
    )
    &&& forest_fans_outward(
        left_forest(children),
        0,
        width,
        Fan::leftwards(padding_horizontal, padding_vertical),
    )
}

/// Layout drops and adds no child of the root, and what it gives is well
/// laid out.
pub proof fn lemma_layout_is_well_laid_out(
    root: NodeView,
    padding_horizontal: nat,
    padding_vertical: nat,
)
    ensures
        ({
            let after = layout_root(root, padding_horizontal, padding_vertical);
            &&& after.child_seq().len() == root.child_seq().len()
            &&& after.children is Some <==> root.children is Some
            &&& well_laid_out(after, padding_horizontal, padding_vertical)
        }),
{
    let after = layout_root(root, padding_horizontal, padding_vertical);
    let children = root.child_seq();
    let width = root.intrinsic_size().width;
    let rightwards = Fan::rightwards(padding_horizontal, padding_vertical);
    let leftwards = Fan::leftwards(padding_horizontal, padding_vertical);
    let right = place_forest(right_forest(children), 0, 0, width, rightwards);
    let left = place_forest(left_forest(children), 0, 0, width, leftwards);
    let placed = fan_out(children, width, padding_horizontal, padding_vertical);
    lemma_root_is_centered(root, padding_horizontal, padding_vertical);
    lemma_placed_forest(right_forest(children), 0, 0, width, rightwards);
    lemma_placed_forest(left_forest(children), 0, 0, width, leftwards);
    assert(placed == right + left);
    assert(after.child_seq() =~= placed);
    assert(right_forest(placed) =~= right);
    assert(left_forest(placed) =~= left);
    assert forall|i: int| 0 <= i < placed.len() implies fully_positioned(#[trigger] placed[i])
        && stacks_are_ordered(placed[i], padding_vertical) by {
        if i < right.len() {
            assert(placed[i] == right[i]);
        } else {
            assert(placed[i] == left[i - right.len()]);
        }
    }
}

} // verus!
