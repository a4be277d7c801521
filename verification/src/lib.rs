//! A fixed-size, row-major two-dimensional array with rectangular windows
//! over it, shared or exclusive, and splits of a window into disjoint halves.

pub mod eq;
pub mod grid;
pub mod laws;
pub mod render;
mod rows;
pub mod view;

pub use grid::VecVec;
pub use view::{Capability, Immutable, ImmutableSlice, Mutable, MutableSlice, Slice};
