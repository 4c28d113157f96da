//! The layout that fans the children of the root out to its right and left.
//!
//! Coordinates are computed in 128 bits and stored in 64. Each function that
//! assigns positions asks that the positions it is to assign fit;
//! [`LeftRightHorizontalLayout::placement_fits`] and
//! [`LeftRightHorizontalLayout::can_layout`] tell beforehand whether they do.
//! The recursion is as deep as the tree.

use vstd::prelude::*;
use crate::layout::guarantees::{
    fans_outward, forest_fans_outward, forest_is_stacked, fully_positioned,
    lemma_layout_idempotent, lemma_layout_is_well_laid_out, lemma_placed_forest,
    lemma_placement_fans_outward, lemma_placement_orders_stacks, lemma_placement_reaches_all,
    lemma_root_is_centered, stack_is_ordered, stacks_are_ordered, well_laid_out,
};
use crate::layout::placement::{
    box_bottom, box_top, children_top, fan_out, forest_fits, laid_out, layout_root, left_forest,
    lemma_parent_center_fits, lemma_place_node_children, lemma_positions_fit_unfold, lower_edge,
    mindmap_fits, parent_center, place_forest, place_node, positions_fit, right_forest,
    split_point, stack_center, stack_top, upper_edge, Fan,
};
use crate::layout::pos2::Pos2;
use crate::layout::size::Size;
use crate::mindmap::Mindmap;
use crate::node::{lemma_view_children, views_of, Node};

verus! {

/// `v / 2`, rounded down.
fn half_floor(v: i128) -> (h: i128)
    requires
        v > i128::MIN,
    ensures
        h == v / 2,
{
    if v >= 0 {
        v / 2
    } else {
        (v - 1) / 2
    }
}

/// The x coordinate of a node of width `node_width` beside a parent of
/// width `parent_width` that is centred at `parent_x`.
fn outward_x(
    parent_x: i64,
    node_width: u32,
    parent_width: u32,
    side: i64,
    padding_horizontal: u32,
) -> (x: i128)
    requires
        side == 1 || side == -1,
    ensures
        x == parent_x + side * (node_width / 2 + padding_horizontal + parent_width / 2),
{
    let offset: i128 = (node_width / 2) as i128 + padding_horizontal as i128 + (parent_width
        / 2) as i128;
    if side == 1 {
        parent_x as i128 + offset
    } else {
        parent_x as i128 - offset
    }
}

/// The layout that puts the first half of the root's children to its right
/// and the second half to its left.
pub struct LeftRightHorizontalLayout {}

impl LeftRightHorizontalLayout {
    /// Places the trees of `forest` beside a parent of size `parent_size`
    /// centred at `x`, stacked downwards from `top`.
    fn place_stack(
        forest: &mut Vec<Node>,
        x: i64,
        top: i128,
        parent_size: Size,
        side: i64,
        padding_horizontal: u32,
        padding_vertical: u32,
    )
        requires
            side == 1 || side == -1,
            forest_fits(
                place_forest(
                    views_of(old(forest)@),
                    x as int,
                    top as int,
                    parent_size@.width,
                    Fan::of(side, padding_horizontal, padding_vertical),
                ),
            ),
        ensures
            views_of(final(forest)@) == place_forest(
                views_of(old(forest)@),
                x as int,
                top as int,
                parent_size@.width,
                Fan::of(side, padding_horizontal, padding_vertical),
            ),
        decreases views_of(old(forest)@),
    {
        let ghost fan = Fan::of(side, padding_horizontal, padding_vertical);
        let ghost before = views_of(forest@);
        let ghost after = place_forest(before, x as int, top as int, parent_size@.width, fan);
        let n = forest.len();
        let mut cursor: i128 = top;
        let mut i: usize = 0;
        while i < n
            invariant
                i <= n,
                n == forest.len(),
                n == before.len(),
                side == 1 || side == -1,
                fan == Fan::of(side, padding_horizontal, padding_vertical),
                before == views_of(old(forest)@),
                after == place_forest(before, x as int, top as int, parent_size@.width, fan),
                forest_fits(after),
                cursor == top + stack_top(before, i as int, fan.padding_vertical),
                forall|j: int| 0 <= j < i ==> (#[trigger] forest@[j])@ == after[j],
                forall|j: int| i <= j < n ==> (#[trigger] forest@[j])@ == before[j],
            decreases n - i,
        {
            let child = &mut forest[i];
            let height = child.get_subtree_size().height;
            assert(positions_fit(after[i as int]));
            assert(after[i as int].position_from_initial->0.y == stack_center(
                before,
                i as int,
                top as int,
                fan.padding_vertical,
            ));
            let center_y: i128 = cursor + (height / 2) as i128;
            Self::place_node_positions(
                child,
                Pos2 { x, y: center_y as i64 },
                parent_size,
                side,
                padding_horizontal,
                padding_vertical,
            );
            cursor = cursor + height as i128 + padding_vertical as i128;
            i += 1;
        }
        assert(views_of(forest@) =~= after);
    }

    /// Places `node` beside its parent, and its descendants beside it.
    ///
    /// The node is centred at the height of `parent_position`, and pushed
    /// away from `parent_position.x` towards `side` (`1` for right, `-1` for
    /// left) by half its own width, half the parent's width and the
    /// horizontal padding. Its children are stacked downwards from half the
    /// height of the box around its descendants above its own height; that
    /// height counts as zero while it is not computed. Returns it, or zero
    /// for a leaf.
    pub fn place_node_positions(
        node: &mut Node,
        parent_position: Pos2,
        parent_size: Size,
        side: i64,
        horizontal_padding: u32,
        vertical_padding: u32,
    ) -> (total_height: u32)
        requires
            side == 1 || side == -1,
            positions_fit(
                place_node(
                    old(node)@,
                    parent_position@,
                    parent_size@.width,
                    Fan::of(side, horizontal_padding, vertical_padding),
                ),
            ),
        ensures
            final(node)@ == place_node(
                old(node)@,
                parent_position@,
                parent_size@.width,
                Fan::of(side, horizontal_padding, vertical_padding),
            ),
            total_height == (if old(node)@.is_leaf() {
                0
            } else {
                old(node)@.descendants_size().height
            }),
            fully_positioned(final(node)@),
            fans_outward(
                final(node)@,
                parent_position@.x,
                parent_size@.width,
                Fan::of(side, horizontal_padding, vertical_padding),
            ),
            stacks_are_ordered(final(node)@, vertical_padding as nat),
        decreases old(node)@,
    {
        let ghost fan = Fan::of(side, horizontal_padding, vertical_padding);
        let ghost before = node@;
        let ghost after = place_node(before, parent_position@, parent_size@.width, fan);
        proof {
            lemma_placement_reaches_all(before, parent_position@, parent_size@.width, fan);
            lemma_placement_fans_outward(before, parent_position@, parent_size@.width, fan);
            lemma_placement_orders_stacks(before, parent_position@, parent_size@.width, fan);
            lemma_place_node_children(before, parent_position@, parent_size@.width, fan);
            lemma_positions_fit_unfold(after);
            lemma_view_children(*node);
        }
        let node_size = node.get_graphical_size();
        let subtree_height = match node.children_graphical_size {
            Some(size) => size.height,
            None => 0,
        };
        let x = outward_x(
            parent_position.x,
            node_size.width,
            parent_size.width,
            side,
            horizontal_padding,
        ) as i64;
        node.position_from_initial = Some(Pos2 { x, y: parent_position.y });
        let mut total_height: u32 = 0;
        match node.children.take() {
            None => {},
            Some(mut children) => {
                let top: i128 = parent_position.y as i128 - (subtree_height / 2) as i128;
                assert(top == children_top(before, parent_position.y as int));
                if children.len() > 0 {
                    total_height = subtree_height;
                }
                Self::place_stack(
                    &mut children,
                    x,
                    top,
                    node_size,
                    side,
                    horizontal_padding,
                    vertical_padding,
                );
                node.children = Some(children);
                proof {
                    lemma_view_children(*node);
                }
            },
        }
        assert(node@ =~= after);
        total_height
    }

    /// Places the trees of `element_tree` beside a parent of size
    /// `graphical_size` centred at `position_starting.x`, towards `tree_side`
    /// (`1` for right, `-1` for left), stacked downwards from height zero.
    pub fn place_tree_positions(
        element_tree: &mut Vec<Node>,
        padding_horizontal: u32,
        padding_vertical: u32,
        position_starting: Pos2,
        graphical_size: Size,
        tree_side: i64,
    )
        requires
            tree_side == 1 || tree_side == -1,
            forest_fits(
                place_forest(
                    views_of(old(element_tree)@),
                    position_starting@.x,
                    0,
                    graphical_size@.width,
                    Fan::of(tree_side, padding_horizontal, padding_vertical),
                ),
            ),
        ensures
            views_of(final(element_tree)@) == place_forest(
                views_of(old(element_tree)@),
                position_starting@.x,
                0,
                graphical_size@.width,
                Fan::of(tree_side, padding_horizontal, padding_vertical),
            ),
            final(element_tree)@.len() == old(element_tree)@.len(),
            stack_is_ordered(views_of(final(element_tree)@), padding_vertical as nat),
            forest_is_stacked(views_of(final(element_tree)@), padding_vertical as nat),
            forest_fans_outward(
                views_of(final(element_tree)@),
                position_starting@.x,
                graphical_size@.width,
                Fan::of(tree_side, padding_horizontal, padding_vertical),
            ),
    {
        proof {
            lemma_placed_forest(
                views_of(element_tree@),
                position_starting@.x,
                0,
                graphical_size@.width,
                Fan::of(tree_side, padding_horizontal, padding_vertical),
            );
        }
        Self::place_stack(
            element_tree,
            position_starting.x,
            0,
            graphical_size,
            tree_side,
            padding_horizontal,
            padding_vertical,
        );
    }

    /// Splits the children of the root into those that go right and those
    /// that go left, each in their order: the first half goes right, with
    /// the middle one of an odd number.
    pub fn divide_elements_tree(children: Vec<Node>) -> (sides: (Vec<Node>, Vec<Node>))
        ensures
            sides.0@ + sides.1@ == children@,
            sides.0@.len() == split_point(children@.len()),
            views_of(sides.0@) == right_forest(views_of(children@)),
            views_of(sides.1@) == left_forest(views_of(children@)),
    {
        let mut right = children;
        let n = right.len();
        let left = right.split_off(n - n / 2);
        assert(right@ + left@ =~= children@);
        assert(views_of(right@) =~= right_forest(views_of(children@)));
        assert(views_of(left@) =~= left_forest(views_of(children@)));
        (right, left)
    }

    /// The position of a parent over its children: on the axis `x == 0`,
    /// halfway between the highest upper edge and the lowest lower edge of
    /// the boxes of those children that have a position; the origin where
    /// none has.
    pub fn position_parent_node(children: &mut Vec<Node>) -> (center: Pos2)
        ensures
            center@ == parent_center(views_of(old(children)@)),
            *final(children) == *old(children),
    {
        let ghost views = views_of(children@);
        let n = children.len();
        let mut edges: Option<(i128, i128)> = None;
        let mut i: usize = 0;
        while i < n
            invariant
                i <= n,
                n == children.len(),
                views == views_of(children@),
                *children == *old(children),
                match edges {
                    Some((top, bottom)) => {
                        &&& upper_edge(views.take(i as int)) == Some(top as int)
                        &&& lower_edge(views.take(i as int)) == Some(bottom as int)
                        &&& i64::MIN - 0x8000_0000 <= top <= i64::MAX
                        &&& i64::MIN <= bottom <= i64::MAX + 0x8000_0000
                        &&& 2 * i64::MIN <= top + bottom <= 2 * i64::MAX
                    },
                    None => {
                        &&& upper_edge(views.take(i as int)) is None
                        &&& lower_edge(views.take(i as int)) is None
                    },
                },
            decreases n - i,
        {
            let child = &children[i];
            proof {
                assert(views.take(i + 1).drop_last() =~= views.take(i as int));
                assert(views.take(i + 1).last() == child@);
            }
            match child.position_from_initial {
                None => {},
                Some(position) => {
                    let half = (child.get_graphical_size().height / 2) as i128;
                    let top = position.y as i128 - half;
                    let bottom = position.y as i128 + half;
                    assert(top == box_top(child@));
                    assert(bottom == box_bottom(child@));
                    edges = match edges {
                        None => Some((top, bottom)),
                        Some((highest, lowest)) => Some(
                            (
                                if highest <= top { highest } else { top },
                                if lowest >= bottom { lowest } else { bottom },
                            ),
                        ),
                    };
                },
            }
            i += 1;
        }
        assert(views.take(n as int) =~= views);
        match edges {
            None => Pos2 { x: 0, y: 0 },
            Some((top, bottom)) => Pos2 { x: 0, y: half_floor(top + bottom) as i64 },
        }
    }

    /// Whether every position that [`Self::place_stack`] would assign fits.
    fn stack_fits(
        forest: &[Node],
        x: i64,
        top: i128,
        parent_size: Size,
        side: i64,
        padding_horizontal: u32,
        padding_vertical: u32,
    ) -> (fits: bool)
        requires
            side == 1 || side == -1,
            i64::MIN - 0x8000_0000 <= top <= i64::MAX,
        ensures
            fits == forest_fits(
                place_forest(
                    views_of(forest@),
                    x as int,
                    top as int,
                    parent_size@.width,
                    Fan::of(side, padding_horizontal, padding_vertical),
                ),
            ),
        decreases views_of(forest@),
    {
        let ghost fan = Fan::of(side, padding_horizontal, padding_vertical);
        let ghost views = views_of(forest@);
        let ghost placed = place_forest(views, x as int, top as int, parent_size@.width, fan);
        let n = forest.len();
        let mut cursor: i128 = top;
        let mut i: usize = 0;
        while i < n
            invariant
                i <= n,
                n == forest.len(),
                side == 1 || side == -1,
                fan == Fan::of(side, padding_horizontal, padding_vertical),
                views == views_of(forest@),
                placed == place_forest(views, x as int, top as int, parent_size@.width, fan),
                cursor == top + stack_top(views, i as int, fan.padding_vertical),
                i64::MIN - 0x8000_0000 <= cursor <= i64::MAX + 0x2_0000_0000,
                forall|j: int| 0 <= j < i ==> positions_fit(#[trigger] placed[j]),
            decreases n - i,
        {
            let child = &forest[i];
            let height = child.get_subtree_size().height;
            let center_y: i128 = cursor + (height / 2) as i128;
            proof {
                lemma_positions_fit_unfold(placed[i as int]);
                assert(placed[i as int].position_from_initial->0.y == center_y);
            }
            if center_y < i64::MIN as i128 || center_y > i64::MAX as i128 {
                return false;
            }
            if !Self::placement_fits(
                child,
                Pos2 { x, y: center_y as i64 },
                parent_size,
                side,
                padding_horizontal,
                padding_vertical,
            ) {
                return false;
            }
            cursor = cursor + height as i128 + padding_vertical as i128;
            i += 1;
        }
        true
    }

    /// Whether every position that [`Self::place_node_positions`] would assign
    /// for these arguments is one that a [`Pos2`] can hold.
    pub fn placement_fits(
        node: &Node,
        parent_position: Pos2,
        parent_size: Size,
        side: i64,
        horizontal_padding: u32,
        vertical_padding: u32,
    ) -> (fits: bool)
        requires
            side == 1 || side == -1,
        ensures
            fits == positions_fit(
                place_node(
                    node@,
                    parent_position@,
                    parent_size@.width,
                    Fan::of(side, horizontal_padding, vertical_padding),
                ),
            ),
        decreases node@,
    {
        let ghost fan = Fan::of(side, horizontal_padding, vertical_padding);
        let ghost placed = place_node(node@, parent_position@, parent_size@.width, fan);
        proof {
            lemma_place_node_children(node@, parent_position@, parent_size@.width, fan);
            lemma_positions_fit_unfold(placed);
            lemma_view_children(*node);
        }
        let node_size = node.get_graphical_size();
        let x = outward_x(
            parent_position.x,
            node_size.width,
            parent_size.width,
            side,
            horizontal_padding,
        );
        if x < i64::MIN as i128 || x > i64::MAX as i128 {
            return false;
        }
        match &node.children {
            None => true,
            Some(children) => {
                let subtree_height = match node.children_graphical_size {
                    Some(size) => size.height,
                    None => 0,
                };
                let top: i128 = parent_position.y as i128 - (subtree_height / 2) as i128;
                Self::stack_fits(
                    children.as_slice(),
                    x as i64,
                    top,
                    node_size,
                    side,
                    horizontal_padding,
                    vertical_padding,
                )
            },
        }
    }

    /// Whether [`Self::layout`] can lay the mindmap out: every position that
    /// it would assign is one that a [`Pos2`] can hold.
    pub fn can_layout(mindmap: &Mindmap) -> (fits: bool)
        ensures
            fits == mindmap_fits(laid_out(mindmap@)),
    {
        match &mindmap.data {
            None => true,
            Some(root) => {
                let padding_horizontal = mindmap.metadata.style.padding_horizontal;
                let padding_vertical = mindmap.metadata.style.padding_vertical;
                let root_size = root.get_graphical_size();
                let ghost after = layout_root(
                    root@,
                    padding_horizontal as nat,
                    padding_vertical as nat,
                );
                let ghost placed = fan_out(
                    root@.child_seq(),
                    root_size@.width,
                    padding_horizontal as nat,
                    padding_vertical as nat,
                );
                proof {
                    lemma_view_children(*root);
                    lemma_positions_fit_unfold(after);
                }
                match &root.children {
                    None => {
                        proof {
                            lemma_parent_center_fits(placed);
                        }
                        true
                    },
                    Some(children) => {
                        let n = children.len();
                        let mid = n - n / 2;
                        let right = &children[0..mid];
                        let left = &children[mid..n];
                        assert(views_of(right@) =~= right_forest(views_of(children@)));
                        assert(views_of(left@) =~= left_forest(views_of(children@)));
                        let ghost right_placed = place_forest(
                            views_of(right@),
                            0,
                            0,
                            root_size@.width,
                            Fan::of(1i64, padding_horizontal, padding_vertical),
                        );
                        let ghost left_placed = place_forest(
                            views_of(left@),
                            0,
                            0,
                            root_size@.width,
                            Fan::of(-1i64, padding_horizontal, padding_vertical),
                        );
                        assert(placed == right_placed + left_placed);
                        let fits = Self::stack_fits(
                            right,
                            0,
                            0,
                            root_size,
                            1,
                            padding_horizontal,
                            padding_vertical,
                        ) && Self::stack_fits(
                            left,
                            0,
                            0,
                            root_size,
                            -1,
                            padding_horizontal,
                            padding_vertical,
                        );
                        proof {
                            if fits {
                                assert forall|i: int| 0 <= i < placed.len() implies positions_fit(
                                    #[trigger] placed[i],
                                ) by {
                                    if i < right_placed.len() {
                                        assert(placed[i] == right_placed[i]);
                                    } else {
                                        assert(placed[i] == left_placed[i - right_placed.len()]);
                                    }
                                }
                                assert forall|i: int| 0 <= i < placed.len() implies ((
                                #[trigger] placed[i]).position_from_initial matches Some(p)
                                    ==> p.representable()) by {
                                    lemma_positions_fit_unfold(placed[i]);
                                }
                                lemma_parent_center_fits(placed);
                            } else if forest_fits(placed) {
                                assert forall|i: int|
                                    0 <= i < right_placed.len() implies positions_fit(
                                    #[trigger] right_placed[i],
                                ) by {
                                    assert(placed[i] == right_placed[i]);
                                }
                                assert forall|i: int|
                                    0 <= i < left_placed.len() implies positions_fit(
                                    #[trigger] left_placed[i],
                                ) by {
                                    assert(placed[right_placed.len() + i] == left_placed[i]);
                                }
                            }
                        }
                        fits
                    },
                }
            },
        }
    }

    /// Lays the mindmap out where [`Self::layout`] can; else leaves it as it
    /// is and returns `false`.
    pub fn try_layout(mindmap: &mut Mindmap) -> (done: bool)
        ensures
            done == mindmap_fits(laid_out(old(mindmap)@)),
            done ==> final(mindmap)@ == laid_out(old(mindmap)@),
            !done ==> *final(mindmap) == *old(mindmap),
    {
        if Self::can_layout(mindmap) {
            Self::layout(mindmap);
            true
        } else {
            false
        }
    }

    /// Lays the mindmap out: the children of the root are split into a right
    /// and a left forest, each forest is stacked downwards from the origin
    /// and fans out to its side, and the root is centred over its children.
    /// An empty mindmap stays as it is. Sizes are read as they are, and a
    /// missing size counts as zero. No child is dropped or added, every node
    /// gets a position, and a second layout changes nothing.
    pub fn layout(mindmap: &mut Mindmap) -> (result: &mut Mindmap)
        requires
            mindmap_fits(laid_out(old(mindmap)@)),
        ensures
            result@ == laid_out(old(mindmap)@),
            result@.data matches Some(root) ==> {
                &&& root.position_from_initial == Some(parent_center(root.child_seq()))
                &&& root.child_seq().len() == old(mindmap)@.data->0.child_seq().len()
                &&& well_laid_out(
                    root,
                    old(mindmap)@.metadata.style.padding_horizontal as nat,
                    old(mindmap)@.metadata.style.padding_vertical as nat,
                )
            },
            laid_out(result@) == result@,
            *final(mindmap) == *final(result),
    {
        let padding_horizontal = mindmap.metadata.style.padding_horizontal;
        let padding_vertical = mindmap.metadata.style.padding_vertical;
        let ghost before = mindmap@;
        proof {
            lemma_layout_idempotent(before);
        }
        match mindmap.data.take() {
            None => {},
            Some(mut root) => {
                let ghost old_root = root@;
                let ghost after = layout_root(
                    old_root,
                    padding_horizontal as nat,
                    padding_vertical as nat,
                );
                proof {
                    lemma_view_children(root);
                    lemma_positions_fit_unfold(after);
                    lemma_root_is_centered(
                        old_root,
                        padding_horizontal as nat,
                        padding_vertical as nat,
                    );
                    lemma_layout_is_well_laid_out(
                        old_root,
                        padding_horizontal as nat,
                        padding_vertical as nat,
                    );
                }
                let root_size = root.get_graphical_size();
                let taken = root.children.take();
                let has_children = taken.is_some();
                let children = match taken {
                    Some(children) => children,
                    None => Vec::new(),
                };
                assert(views_of(children@) =~= old_root.child_seq());
                let ghost placed = fan_out(
                    views_of(children@),
                    root_size@.width,
                    padding_horizontal as nat,
                    padding_vertical as nat,
                );
                let (mut right, mut left) = Self::divide_elements_tree(children);
                let ghost right_placed = place_forest(
                    views_of(right@),
                    0,
                    0,
                    root_size@.width,
                    Fan::of(1i64, padding_horizontal, padding_vertical),
                );
                let ghost left_placed = place_forest(
                    views_of(left@),
                    0,
                    0,
                    root_size@.width,
                    Fan::of(-1i64, padding_horizontal, padding_vertical),
                );
                assert(placed == right_placed + left_placed);
                proof {
                    if has_children {
                        assert(forest_fits(placed));
                        assert forall|i: int| 0 <= i < right_placed.len() implies positions_fit(
                            #[trigger] right_placed[i],
                        ) by {
                            assert(placed[i] == right_placed[i]);
                        }
                        assert forall|i: int| 0 <= i < left_placed.len() implies positions_fit(
                            #[trigger] left_placed[i],
                        ) by {
                            assert(placed[right_placed.len() + i] == left_placed[i]);
                        }
                    }
                }
                Self::place_tree_positions(
                    &mut right,
                    padding_horizontal,
                    padding_vertical,
                    Pos2::zero(),
                    root_size,
                    1,
                );
                Self::place_tree_positions(
                    &mut left,
                    padding_horizontal,
                    padding_vertical,
                    Pos2::zero(),
                    root_size,
                    -1,
                );
                right.append(&mut left);
                assert(views_of(right@) =~= placed);
                let center = Self::position_parent_node(&mut right);
                if has_children {
                    root.children = Some(right);
                }
                root.position_from_initial = Some(center);
                proof {
                    lemma_view_children(root);
                }
                assert(root@ =~= after);
                mindmap.data = Some(root);
            },
        }
        assert(mindmap@ =~= laid_out(before));
        mindmap
    }
}

} // verus!
