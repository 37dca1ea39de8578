//! Escape-time fractal rendering: a grid partitioned among workers, a global
//! range over the divergence buffer under the IEEE-754 total order, a gradient
//! palette, colour packing and the binary raster framing.
use vstd::prelude::*;

pub mod grid;
pub mod partition;
pub mod range;
pub mod render;
pub mod color;
pub mod image;

verus! {

} // verus!
