use vstd::prelude::*;

pub mod atlas;
pub mod bytes;
pub mod gpu_buffer;
pub mod layouts;
pub mod sprite;
pub mod map;
pub mod text;
pub mod texture;
pub mod vertex_buffer;
pub mod vertexbuffer;

verus! {

} // verus!
