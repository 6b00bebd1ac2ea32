//! Anchor-and-constraint layout solver for hierarchical 2D interface trees.
//!
//! Given a root node and an available rectangular space, the solver computes
//! the position and size of every node in a tree, honouring per-node anchor
//! fractions, axis constraints (padding, explicit size, centering), aspect
//! coupling between the axes, and an optional "spread" mode that distributes
//! a node's children along one axis with weighted, min/max-clamped sizing.
//!
//! Coordinates are whole layout units held in `i64`; anchor fractions are
//! held in thousandths and aspect ratios as positive integer fractions, so
//! every computation is exact and every contract states the result in closed
//! form.

pub mod num;
pub mod types;
pub mod axis;
pub mod spread;
pub mod tree;
pub mod gate;
