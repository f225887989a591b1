//! A responsive row-packing layout engine for a thumbnail gallery.
//!
//! Given an ordered registry of fixed-height, variable-width items and a
//! maximum row width, the engine partitions the items into rows (greedy
//! first-fit, order preserving), computes an even inter-item gap per row,
//! and emits one place-or-move command per item.  A controller decides,
//! on viewport resize events, whether a re-layout pass is needed at all.

pub mod controller;
pub mod item;
pub mod pack;
pub mod place;
pub mod spacing;
pub mod sums;
