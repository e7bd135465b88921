//! Widget bookkeeping, vertex and index buffer arithmetic, sprite and map
//! quads, and texture records for a small 2D rendering demo.
use vstd::prelude::*;

pub mod graphics;
pub mod gui;

verus! {

} // verus!
