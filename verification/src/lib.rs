//! A toroidal Conway's-Game-of-Life simulator on a fixed 64x64 boolean grid.
//!
//! The `state` module owns the grid and the generation rule: neighbor counts
//! use modular (wraparound) coordinates, and `advance` replaces the whole
//! grid atomically so that every cell is judged against the previous
//! generation. The `codec` module converts between the grid and its textual
//! form, in both directions. The `laws` module proves the global facts that
//! hold of these operations.

pub mod codec;
pub mod laws;
pub mod state;
