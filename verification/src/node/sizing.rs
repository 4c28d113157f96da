//! The bottom-up pass that computes the sizes of all nodes of a tree.
//!
//! A node's own size comes from its content. The size of the box around its
//! children comes from the children's sizes, so the children are sized first.

use vstd::prelude::*;
use crate::node::{lemma_view_children, stacked_height, views_of, Node, NodeView};

verus! {

/// The forest with all its trees sized.
pub open spec fn sized_forest(
    forest: Seq<NodeView>,
    padding_vertical: nat,
    padding_horizontal: nat,
) -> Seq<NodeView> {
    Seq::new(forest.len(), |i: int| sized(forest[i], padding_vertical, padding_horizontal))
}

/// The tree with the sizes of all its nodes computed: each node has the size
/// estimated from its content, each node with children the size aggregated
/// over its sized children, and each leaf no size of descendants.
pub open spec fn sized(node: NodeView, padding_vertical: nat, padding_horizontal: nat) -> NodeView
    decreases node,
{
    let with_children = NodeView {
        children: match node.children {
            None => None,
            Some(children) => Some(
                Seq::new(
                    children.len(),
                    |i: int|
                        if 0 <= i < children.len() {
                            sized(children[i], padding_vertical, padding_horizontal)
                        } else {
                            arbitrary()
                        },
                ),
            ),
        },
        graphical_size: Some(node.estimated_size()),
        ..node
    };
    NodeView {
        children_graphical_size: with_children.children_box(padding_vertical, padding_horizontal),
        ..with_children
    }
}

/// Every size of [`sized`] is one that a machine size can hold.
pub open spec fn sizable(node: NodeView, padding_vertical: nat, padding_horizontal: nat) -> bool
    decreases node,
{
    &&& node.children matches Some(children) ==> forall|i: int|
        0 <= i < children.len() ==> sizable(
            #[trigger] children[i],
            padding_vertical,
            padding_horizontal,
        )
    &&& node.estimated_size().representable()
    &&& sized(node, padding_vertical, padding_horizontal).aggregated_size(
        padding_vertical,
        padding_horizontal,
    ).representable()
}

/// Every tree of the forest is sizable.
pub open spec fn sizable_forest(
    forest: Seq<NodeView>,
    padding_vertical: nat,
    padding_horizontal: nat,
) -> bool {
    forall|i: int|
        0 <= i < forest.len() ==> sizable(#[trigger] forest[i], padding_vertical, padding_horizontal)
}

/// The children of a sized node are its children, sized.
pub proof fn lemma_sized_children(node: NodeView, padding_vertical: nat, padding_horizontal: nat)
    ensures
        sized(node, padding_vertical, padding_horizontal).children == match node.children {
            None => None,
            Some(children) => Some(sized_forest(children, padding_vertical, padding_horizontal)),
        },
        sizable(node, padding_vertical, padding_horizontal) <==> {
            &&& node.children matches Some(children) ==> sizable_forest(
                children,
                padding_vertical,
                padding_horizontal,
            )
            &&& node.estimated_size().representable()
            &&& sized(node, padding_vertical, padding_horizontal).aggregated_size(
                padding_vertical,
                padding_horizontal,
            ).representable()
        },
{
    reveal_with_fuel(sized, 2);
    reveal_with_fuel(sizable, 2);
    match node.children {
        None => {},
        Some(children) => {
            assert(sized(node, padding_vertical, padding_horizontal).children->0 =~= sized_forest(
                children,
                padding_vertical,
                padding_horizontal,
            ));
        },
    }
}

/// In the whole tree, the subtree size of each leaf is the leaf's own size.
pub open spec fn leaves_are_their_subtrees(node: NodeView) -> bool
    decreases node,
{
    &&& node.is_leaf() ==> node.subtree_size() == node.intrinsic_size()
    &&& node.children matches Some(children) ==> forall|i: int|
        0 <= i < children.len() ==> leaves_are_their_subtrees(#[trigger] children[i])
}

/// After the sizing pass the subtree size of every leaf is its own size.
pub proof fn lemma_sized_leaves(node: NodeView, padding_vertical: nat, padding_horizontal: nat)
    ensures
        leaves_are_their_subtrees(sized(node, padding_vertical, padding_horizontal)),
    decreases node,
{
    reveal_with_fuel(leaves_are_their_subtrees, 2);
    lemma_sized_children(node, padding_vertical, padding_horizontal);
    let after = sized(node, padding_vertical, padding_horizontal);
    match node.children {
        None => {},
        Some(children) => {
            assert forall|i: int| 0 <= i < children.len() implies leaves_are_their_subtrees(
                #[trigger] after.children->0[i],
            ) by {
                lemma_sized_leaves(children[i], padding_vertical, padding_horizontal);
            }
        },
    }
}

/// The aggregated height has room for every child's slot and for the
/// vertical padding between each two of them.
pub proof fn lemma_stacked_height_has_room(children: Seq<NodeView>, padding_vertical: nat)
    ensures
        stacked_height(children, padding_vertical) == stacked_height(children, 0) + children.len()
            * padding_vertical,
        children.len() > 0 ==> stacked_height(children, padding_vertical) >= stacked_height(
            children,
            0,
        ) + (children.len() - 1) * padding_vertical,
    decreases children.len(),
{
    if children.len() > 0 {
        lemma_stacked_height_has_room(children.drop_last(), padding_vertical);
        assert(children.len() * padding_vertical == (children.len() - 1) * padding_vertical
            + padding_vertical) by (nonlinear_arith);
    }
}

impl Node {
    /// Sizes the node and its descendants as far as the sizes fit. Tells
    /// whether all did; the sizes are set as [`sized`] says only then.
    fn size_pass(&mut self, padding_vertical: u32, padding_horizontal: u32) -> (done: bool)
        ensures
            done == sizable(old(self)@, padding_vertical as nat, padding_horizontal as nat),
            done ==> final(self)@ == sized(
                old(self)@,
                padding_vertical as nat,
                padding_horizontal as nat,
            ),
        decreases old(self)@,
    {
        let ghost before = self@;
        let ghost after = sized(before, padding_vertical as nat, padding_horizontal as nat);
        proof {
            lemma_view_children(*self);
            lemma_sized_children(before, padding_vertical as nat, padding_horizontal as nat);
        }
        match self.children.take() {
            None => {},
            Some(mut children) => {
                let ghost olds = views_of(children@);
                let n = children.len();
                let mut i: usize = 0;
                let mut all_done = true;
                while all_done && i < n
                    invariant
                        i <= n,
                        n == children.len(),
                        n == olds.len(),
                        before == old(self)@,
                        before.children == Some(olds),
                        !all_done ==> i < n && !sizable(
                            olds[i as int],
                            padding_vertical as nat,
                            padding_horizontal as nat,
                        ),
                        forall|j: int|
                            0 <= j < i ==> sizable(
                                #[trigger] olds[j],
                                padding_vertical as nat,
                                padding_horizontal as nat,
                            ),
                        forall|j: int|
                            0 <= j < i ==> (#[trigger] children@[j])@ == sized(
                                olds[j],
                                padding_vertical as nat,
                                padding_horizontal as nat,
                            ),
                        forall|j: int|
                            i <= j < n && (all_done || j != i) ==> (#[trigger] children@[j])@
                                == olds[j],
                    decreases n - i + (if all_done { 1int } else { 0int }),
                {
                    let child = &mut children[i];
                    proof {
                        assert(decreases_to!(before => before.children));
                        assert(decreases_to!(before.children => before.children->0));
                        assert(decreases_to!(olds => olds[i as int]));
                    }
                    if child.size_pass(padding_vertical, padding_horizontal) {
                        i += 1;
                    } else {
                        all_done = false;
                    }
                }
                if all_done {
                    assert(views_of(children@) =~= sized_forest(
                        olds,
                        padding_vertical as nat,
                        padding_horizontal as nat,
                    ));
                }
                self.children = Some(children);
                if !all_done {
                    return false;
                }
            },
        }
        proof {
            lemma_view_children(*self);
        }
        assert(self@.children == after.children);
        if !self.try_compute_graphical_size() {
            return false;
        }
        proof {
            lemma_view_children(*self);
        }
        if !self.try_compute_children_graphical_size(padding_vertical, padding_horizontal) {
            return false;
        }
        proof {
            lemma_view_children(*self);
        }
        assert(self@ =~= after);
        true
    }

    /// Computes the sizes of the node and of all its descendants, bottom-up,
    /// where all fit; else leaves the tree as it is and
    /// returns `false`.
    pub fn try_compute_sizes(
        &mut self,
        padding_vertical: u32,
        padding_horizontal: u32,
    ) -> (done: bool)
        ensures
            done == sizable(old(self)@, padding_vertical as nat, padding_horizontal as nat),
            done ==> final(self)@ == sized(
                old(self)@,
                padding_vertical as nat,
                padding_horizontal as nat,
            ),
            !done ==> *final(self) == *old(self),
    {
        let mut copy = self.duplicate();
        if copy.size_pass(padding_vertical, padding_horizontal) {
            *self = copy;
            true
        } else {
            false
        }
    }

    /// Computes the sizes of the node and of all its descendants, bottom-up.
    pub fn compute_sizes(
        &mut self,
        padding_vertical: u32,
        padding_horizontal: u32,
    ) -> (node: &mut Node)
        requires
            sizable(old(self)@, padding_vertical as nat, padding_horizontal as nat),
        ensures
            node@ == sized(old(self)@, padding_vertical as nat, padding_horizontal as nat),
            *final(self) == *final(node),
    {
        self.size_pass(padding_vertical, padding_horizontal);
        self
    }
}

} // verus!
