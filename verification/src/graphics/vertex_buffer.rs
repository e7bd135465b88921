use crate::graphics::gpu_buffer::{quad_pass, quads_fit, BufferLayout};
pub use crate::graphics::gpu_buffer::BufferPass;
use std::marker::PhantomData;
use vstd::prelude::*;

verus! {

/// The sizes of a vertex buffer of fixed size and its index buffer: the
/// vertices and indices in use, the vertex buffer's size in bytes and the
/// bytes per vertex.
pub struct VertexBuffer<K: BufferLayout> {
    vertex_count: u64,
    indice_count: u64,
    buffer_max: u64,
    buffer_stride: u64,
    phantom_data: PhantomData<K>,
}

/// The sizes of a fixed vertex buffer.
pub struct VertexBufferView {
    pub vertex_count: nat,
    pub indice_count: nat,
    pub buffer_max: nat,
    pub buffer_stride: nat,
}

impl<K: BufferLayout> View for VertexBuffer<K> {
    type V = VertexBufferView;

    closed spec fn view(&self) -> VertexBufferView {
        VertexBufferView {
            vertex_count: self.vertex_count as nat,
            indice_count: self.indice_count as nat,
            buffer_max: self.buffer_max as nat,
            buffer_stride: self.buffer_stride as nat,
        }
    }
}

impl<K: BufferLayout> VertexBuffer<K> {
    pub fn buffer_max(&self) -> (r: u64)
        ensures
            r == self@.buffer_max,
    {
        self.buffer_max
    }

    pub fn buffer_stride(&self) -> (r: u64)
        ensures
            r == self@.buffer_stride,
    {
        self.buffer_stride
    }

    /// The sizes for buffers made from `buffers`: no vertex in use, every
    /// index counted, the vertex type's stride.
    fn create_buffer(buffers: &BufferPass) -> (r: Self)
        ensures
            r@ == (VertexBufferView {
                vertex_count: 0,
                indice_count: buffers.indices@.len() / 4,
                buffer_max: buffers.vertices@.len(),
                buffer_stride: K::spec_vertex_stride(),
            }),
            K::spec_vertex_stride() > 0,
    {
        let stride = K::vertex_stride();
        VertexBuffer {
            vertex_count: 0,
            indice_count: (buffers.indices.len() / 4) as u64,
            buffer_max: buffers.vertices.len() as u64,
            buffer_stride: stride as u64,
            phantom_data: PhantomData,
        }
    }

    pub fn indice_count(&self) -> (r: u64)
        ensures
            r == self@.indice_count,
    {
        self.indice_count
    }

    /// Buffers of the default size, with their sizes.
    pub fn new() -> (r: (Self, BufferPass))
        ensures
            quad_pass(r.1, K::spec_default_capacity() as int, K::spec_vertex_stride() as int),
            r.0@ == (VertexBufferView {
                vertex_count: 0,
                indice_count: r.1.indices@.len() / 4,
                buffer_max: r.1.vertices@.len(),
                buffer_stride: K::spec_vertex_stride(),
            }),
            K::spec_vertex_stride() > 0,
    {
        let buffers = K::default_buffer();
        (Self::create_buffer(&buffers), buffers)
    }

    /// Takes vertex bytes smaller than the buffer: the vertex count becomes
    /// their number and `true` says they are to be written; larger bytes
    /// change nothing and are not written.
    pub fn set_buffer(&mut self, bytes: &[u8]) -> (write: bool)
        requires
            old(self)@.buffer_stride > 0,
        ensures
            write == (bytes@.len() < old(self)@.buffer_max),
            write ==> final(self)@ == (VertexBufferView {
                vertex_count: bytes@.len() / old(self)@.buffer_stride,
                ..old(self)@
            }),
            !write ==> final(self)@ == old(self)@,
    {
        let size = bytes.len() as u64;
        if size >= self.buffer_max {
            return false;
        }
        self.vertex_count = size / self.buffer_stride;
        true
    }

    /// Sets how many indices are drawn.
    pub fn set_indice_count(&mut self, count: u64)
        ensures
            final(self)@ == (VertexBufferView { indice_count: count as nat, ..old(self)@ }),
    {
        self.indice_count = count;
    }

    pub fn vertex_count(&self) -> (r: u64)
        ensures
            r == self@.vertex_count,
    {
        self.vertex_count
    }

    /// Buffers for `capacity` quads, with their sizes.
    pub fn with_capacity(capacity: usize) -> (r: (Self, BufferPass))
        requires
            quads_fit(capacity as int, K::spec_vertex_stride() as int),
        ensures
            quad_pass(r.1, capacity as int, K::spec_vertex_stride() as int),
            r.0@ == (VertexBufferView {
                vertex_count: 0,
                indice_count: r.1.indices@.len() / 4,
                buffer_max: r.1.vertices@.len(),
                buffer_stride: K::spec_vertex_stride(),
            }),
            K::spec_vertex_stride() > 0,
    {
        let buffers = K::with_capacity(capacity);
        (Self::create_buffer(&buffers), buffers)
    }
}

} // verus!
