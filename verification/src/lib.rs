//! Directional focus navigation over a window-manager layout tree.
//!
//! Given the layout tree of sway or i3 and a prioritized list of targets, the
//! library finds the leaf that should receive the focus next:
//!
//! - [`parse::PTree::process`] converts the tree as the window manager reports
//!   it into a [`tree::Node`];
//! - [`tree::preprocess`] brings the tree into its canonical shape;
//! - [`args::parse_args`] reads the targets from words such as `split-rt`;
//! - [`algorithm::neighbor`] finds the neighbor of the focused leaf;
//! - [`tree::focus_command`] writes the command that focuses it.
//!
//! What these compute is defined in [`normal`], [`search`] and [`geometry`],
//! over the mathematical model of a tree. [`normal_laws`] and [`search_laws`]
//! state what follows from those definitions for every tree.

pub mod algorithm;
pub mod args;
pub mod geometry;
pub mod normal;
pub mod normal_laws;
pub mod parse;
pub mod scan;
pub mod search;
pub mod search_laws;
pub mod text;
pub mod tree;
