//! Positions, sizes and the left/right horizontal layout.
//!
//! [`placement`] defines where the layout puts each node, [`guarantees`]
//! proves what follows from that, and [`left_right_horizontal`] computes it.

pub mod guarantees;
pub mod left_right_horizontal;
pub mod placement;
pub mod pos2;
pub mod size;
