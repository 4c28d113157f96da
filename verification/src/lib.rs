//! Geometry of a left/right mindmap: the size of every node, the size of
//! every subtree, and the position of every node.
//!
//! A layout takes three steps. [`node::Node::compute_graphical_size`]
//! estimates the box of a node from its text, image and style;
//! [`node::Node::compute_children_graphical_size`] aggregates the boxes of
//! the children into the box of the subtree, children first
//! ([`node::Node::compute_sizes`] does both for a whole tree); and
//! [`layout::left_right_horizontal::LeftRightHorizontalLayout::layout`]
//! stacks one half of the root's children to its right and the other half to
//! its left, and centres the root over them.
//!
//! All lengths and coordinates are whole layout units. Sizes are unsigned,
//! coordinates are signed with `y` growing downwards, and halving rounds
//! down. Every function states its result over the mathematical values of
//! the data ([`layout::pos2::Point`], [`layout::size::Extent`],
//! [`node::NodeView`]), which are unbounded. Where a function has a
//! precondition, it asks that this exact result fits the machine types. For
//! each of the three steps a function named `try_..` decides that at run
//! time and does the step only where it can be done.

pub mod layout;
pub mod mindmap;
pub mod node;
