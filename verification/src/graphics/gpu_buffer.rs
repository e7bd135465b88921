use crate::graphics::bytes::{holds_u32s, u32_bytes};
use std::marker::PhantomData;
use vstd::prelude::*;

verus! {

/// Vertex bytes and index bytes, ready to be written to the GPU.
pub struct BufferPass {
    pub vertices: Vec<u8>,
    pub indices: Vec<u8>,
}

impl BufferPass {
    pub fn new() -> (r: Self)
        ensures
            r.vertices@ == Seq::<u8>::empty(),
            r.indices@ == Seq::<u8>::empty(),
    {
        BufferPass { vertices: Vec::new(), indices: Vec::new() }
    }
}

/// Index `k` of a quad index list: quad `k / 6` is drawn as the two
/// triangles made of its vertices 0, 1, 2 and 0, 2, 3.
pub open spec fn quad_index(k: int) -> int {
    let x = 4 * (k / 6);
    let r = k % 6;
    if r == 0 {
        x
    } else if r == 1 {
        x + 1
    } else if r == 2 {
        x + 2
    } else if r == 3 {
        x
    } else if r == 4 {
        x + 2
    } else {
        x + 3
    }
}

/// Every index of a quad list names one of the four vertices of its own
/// quad, so a list for `capacity` quads only names the `4 * capacity`
/// vertices of the buffer.
pub proof fn lemma_quad_index_bounds(k: int, capacity: int)
    requires
        0 <= k < 6 * capacity,
    ensures
        4 * (k / 6) <= quad_index(k) < 4 * (k / 6) + 4,
        0 <= quad_index(k) < 4 * capacity,
{
    assert(0 <= k / 6 < capacity) by (nonlinear_arith)
        requires
            0 <= k < 6 * capacity,
    ;
}

/// A quad list of `capacity` quads can be numbered with `u32` indices and
/// its sizes counted in `usize`.
pub open spec fn quads_fit(capacity: int, vertex_stride: int) -> bool {
    &&& 4 * capacity <= u32::MAX + 1
    &&& 24 * capacity <= usize::MAX
    &&& 4 * capacity * vertex_stride <= usize::MAX
}

/// The index list of `capacity` quads, as words.
pub open spec fn quad_words(capacity: int) -> Seq<u32> {
    Seq::new((6 * capacity) as nat, |k: int| quad_index(k) as u32)
}

/// Whether buffers for `capacity` quads of `vertex_stride`-byte vertices can
/// be numbered with `u32` indices and sized in `usize`.
pub fn fits_quads(capacity: usize, vertex_stride: usize) -> (r: bool)
    ensures
        r == quads_fit(capacity as int, vertex_stride as int),
{
    let c = capacity as u128;
    if c * 4 > (u32::MAX as u128) + 1 {
        return false;
    }
    assert(c * 4 * (vertex_stride as u128) <= 0x1_0000_0000u128 * 0x1_0000_0000_0000_0000u128) by (nonlinear_arith)
        requires
            c * 4 <= 0x1_0000_0000u128,
            vertex_stride <= 0xffff_ffff_ffff_ffffu128,
    ;
    c * 24 <= usize::MAX as u128 && c * 4 * (vertex_stride as u128) <= usize::MAX as u128
}

/// The buffers for `capacity` quads with vertices of `vertex_stride` bytes:
/// every vertex byte zero, and the bytes of the quad index list.
pub open spec fn quad_pass(r: BufferPass, capacity: int, vertex_stride: int) -> bool {
    &&& r.vertices@ == Seq::new((4 * capacity * vertex_stride) as nat, |i: int| 0u8)
    &&& r.indices@.len() == 24 * capacity
    &&& holds_u32s(r.indices@, quad_words(capacity))
}

/// The index list for `capacity` quads: 0, 1, 2, 0, 2, 3, then the same
/// shifted by four for each further quad.
pub fn quad_indices(capacity: usize) -> (r: Vec<u32>)
    requires
        4 * capacity <= u32::MAX + 1,
        6 * capacity <= usize::MAX,
    ensures
        r@.len() == 6 * capacity,
        forall|k: int| 0 <= k < r@.len() ==> r@[k] == quad_index(k),
{
    let mut indices: Vec<u32> = Vec::with_capacity(capacity * 6);
    let mut i: usize = 0;
    while i < capacity
        invariant
            i <= capacity,
            4 * capacity <= u32::MAX + 1,
            indices@.len() == 6 * i,
            forall|k: int| 0 <= k < indices@.len() ==> indices@[k] == quad_index(k),
        decreases capacity - i,
    {
        let x: u32 = (i as u32) * 4;
        indices.push(x);
        indices.push(x + 1);
        indices.push(x + 2);
        indices.push(x);
        indices.push(x + 2);
        indices.push(x + 3);
        proof {
            assert forall|k: int| 6 * i <= k < 6 * i + 6 implies indices@[k] == quad_index(k) by {
                assert(k / 6 == i) by (nonlinear_arith)
                    requires
                        6 * i <= k < 6 * i + 6,
                ;
                assert(k % 6 == k - 6 * i) by (nonlinear_arith)
                    requires
                        6 * i <= k < 6 * i + 6,
                ;
            }
        }
        i += 1;
    }
    indices
}

/// Index `k` of a stepped index list: for each step `x`, the indices
/// `x, x + 1, x + 2, x, x + 2, x + 3`.
pub open spec fn stepped_index(k: int) -> int {
    let x = k / 6;
    let r = k % 6;
    if r == 0 || r == 3 {
        x
    } else if r == 1 {
        x + 1
    } else if r == 2 || r == 4 {
        x + 2
    } else {
        x + 3
    }
}

/// The stepped index list for `count` steps.
pub fn stepped_indices(count: u32) -> (r: Vec<u32>)
    requires
        count + 3 <= u32::MAX,
        6 * count <= usize::MAX,
    ensures
        r@.len() == 6 * count,
        forall|k: int| 0 <= k < r@.len() ==> r@[k] == stepped_index(k),
{
    let mut indices: Vec<u32> = Vec::with_capacity(6 * count as usize);
    let mut x: u32 = 0;
    while x < count
        invariant
            x <= count,
            count + 3 <= u32::MAX,
            indices@.len() == 6 * x,
            forall|k: int| 0 <= k < indices@.len() ==> indices@[k] == stepped_index(k),
        decreases count - x,
    {
        indices.push(x);
        indices.push(x + 1);
        indices.push(x + 2);
        indices.push(x);
        indices.push(x + 2);
        indices.push(x + 3);
        proof {
            assert forall|k: int| 6 * x <= k < 6 * x + 6 implies indices@[k] == stepped_index(k) by {
                assert(k / 6 == x) by (nonlinear_arith)
                    requires
                        6 * x <= k < 6 * x + 6,
                ;
                assert(k % 6 == k - 6 * x) by (nonlinear_arith)
                    requires
                        6 * x <= k < 6 * x + 6,
                ;
            }
        }
        x += 1;
    }
    indices
}

/// Zeroed vertices and quad indices for `capacity` quads.
pub fn quad_buffer_pass(capacity: usize, vertex_stride: usize) -> (r: BufferPass)
    requires
        quads_fit(capacity as int, vertex_stride as int),
    ensures
        quad_pass(r, capacity as int, vertex_stride as int),
{
    assert(4 * capacity * vertex_stride == capacity * 4 * vertex_stride) by (nonlinear_arith);
    let n: usize = capacity * 4 * vertex_stride;
    let mut vertices: Vec<u8> = Vec::with_capacity(n);
    let mut i: usize = 0;
    while i < n
        invariant
            i <= n,
            vertices@ == Seq::new(i as nat, |j: int| 0u8),
        decreases n - i,
    {
        vertices.push(0u8);
        i += 1;
    }
    let indices = quad_indices(capacity);
    assert(indices@ =~= quad_words(capacity as int));
    let index_bytes = u32_bytes(indices.as_slice());
    BufferPass { vertices, indices: index_bytes }
}

/// The layout of a vertex type: its size, how its quads are indexed and
/// how large a buffer of it starts.
pub trait BufferLayout {
    /// Bytes per vertex.
    spec fn spec_vertex_stride() -> nat;

    /// Quads a default buffer holds.
    spec fn spec_default_capacity() -> nat;

    /// Indices per quad.
    fn index_offset() -> (r: usize)
        ensures
            r == 6,
    ;

    /// Bytes per index.
    fn index_stride() -> (r: usize)
        ensures
            r == 4,
    ;

    /// Bytes per vertex.
    fn vertex_stride() -> (r: usize)
        ensures
            r == Self::spec_vertex_stride(),
            r > 0,
    ;

    /// Buffers for `capacity` quads.
    fn with_capacity(capacity: usize) -> (r: BufferPass)
        requires
            quads_fit(capacity as int, Self::spec_vertex_stride() as int),
        ensures
            quad_pass(r, capacity as int, Self::spec_vertex_stride() as int),
    ;

    /// Buffers of the default size.
    fn default_buffer() -> (r: BufferPass)
        ensures
            quad_pass(r, Self::spec_default_capacity() as int, Self::spec_vertex_stride() as int),
    ;
}

/// Byte range of a buffer: the range asked for, or everything in use.
pub open spec fn range_or(bounds: Option<(u64, u64)>, end: int) -> (u64, u64) {
    match bounds {
        Some(b) => b,
        None => (0, end as u64),
    }
}

/// The sizes of a vertex buffer and its index buffer on the GPU: how much of
/// each is in use and how large each is. The buffers themselves are made and
/// written by the caller, as each operation says.
pub struct GpuBuffer<K: BufferLayout> {
    vertex_count: usize,
    vertex_max: usize,
    index_count: usize,
    index_max: usize,
    phantom_data: PhantomData<K>,
}

/// The sizes of a vertex and index buffer.
pub struct GpuBufferView {
    pub vertex_count: nat,
    pub vertex_max: nat,
    pub index_count: nat,
    pub index_max: nat,
}

impl<K: BufferLayout> View for GpuBuffer<K> {
    type V = GpuBufferView;

    closed spec fn view(&self) -> GpuBufferView {
        GpuBufferView {
            vertex_count: self.vertex_count as nat,
            vertex_max: self.vertex_max as nat,
            index_count: self.index_count as nat,
            index_max: self.index_max as nat,
        }
    }
}

/// The sizes after the buffers were made from `b`.
pub open spec fn created_from(b: BufferPass) -> GpuBufferView {
    GpuBufferView {
        vertex_count: 0,
        vertex_max: b.vertices@.len(),
        index_count: b.indices@.len() / 4,
        index_max: b.indices@.len(),
    }
}

/// The sizes after the buffers were made anew from `b`, the vertex count kept.
pub open spec fn resized_to(v: GpuBufferView, b: BufferPass) -> GpuBufferView {
    GpuBufferView {
        vertex_count: v.vertex_count,
        vertex_max: b.vertices@.len(),
        index_count: b.indices@.len() / 4,
        index_max: b.indices@.len(),
    }
}

impl<K: BufferLayout> GpuBuffer<K> {
    /// The sizes for buffers made from `buffers`: nothing in use yet, every
    /// index counted.
    pub fn create_buffer(buffers: &BufferPass) -> (r: Self)
        ensures
            r@ == created_from(*buffers),
    {
        GpuBuffer {
            vertex_count: 0,
            vertex_max: buffers.vertices.len(),
            index_count: buffers.indices.len() / K::index_stride(),
            index_max: buffers.indices.len(),
            phantom_data: PhantomData,
        }
    }

    /// Buffers of the default size, with their sizes.
    pub fn new() -> (r: (Self, BufferPass))
        ensures
            quad_pass(r.1, K::spec_default_capacity() as int, K::spec_vertex_stride() as int),
            r.0@ == created_from(r.1),
    {
        let buffers = K::default_buffer();
        (Self::create_buffer(&buffers), buffers)
    }

    /// Buffers for `capacity` quads, with their sizes.
    pub fn with_capacity(capacity: usize) -> (r: (Self, BufferPass))
        requires
            quads_fit(capacity as int, K::spec_vertex_stride() as int),
        ensures
            quad_pass(r.1, capacity as int, K::spec_vertex_stride() as int),
            r.0@ == created_from(r.1),
    {
        let buffers = K::with_capacity(capacity);
        (Self::create_buffer(&buffers), buffers)
    }

    /// New buffers for `capacity` quads, returned to be made on the GPU in
    /// place of the old ones.
    fn resize(&mut self, capacity: usize) -> (r: BufferPass)
        requires
            quads_fit(capacity as int, K::spec_vertex_stride() as int),
        ensures
            quad_pass(r, capacity as int, K::spec_vertex_stride() as int),
            final(self)@ == resized_to(old(self)@, r),
    {
        let buffers = K::with_capacity(capacity);
        self.vertex_max = buffers.vertices.len();
        self.index_count = buffers.indices.len() / K::index_stride();
        self.index_max = buffers.indices.len();
        buffers
    }

    pub fn index_count(&self) -> (r: usize)
        ensures
            r == self@.index_count,
    {
        self.index_count
    }

    pub fn index_stride(&self) -> (r: usize)
        ensures
            r == 4,
    {
        K::index_stride()
    }

    pub fn index_max(&self) -> (r: usize)
        ensures
            r == self@.index_max,
    {
        self.index_max
    }

    /// The byte range of the indices to draw: `bounds`, or all indices in use.
    pub fn indices(&self, bounds: Option<(u64, u64)>) -> (r: (u64, u64))
        requires
            bounds.is_none() ==> self@.index_count * 4 <= u64::MAX,
        ensures
            r == range_or(bounds, (self@.index_count * 4) as int),
    {
        match bounds {
            Some(b) => b,
            None => (0, (self.index_count as u64) * (K::index_stride() as u64)),
        }
    }

    /// Sets how many indices are in use.
    pub fn set_index_count(&mut self, count: usize)
        ensures
            final(self)@ == (GpuBufferView { index_count: count as nat, ..old(self)@ }),
    {
        self.index_count = count;
    }

    /// Takes index bytes that fit below the buffer's size: the count becomes
    /// their number and `true` says they are to be written; bytes that do not
    /// fit change nothing and are not written.
    pub fn set_indices_from(&mut self, bytes: &[u8]) -> (write: bool)
        ensures
            write == (bytes@.len() < old(self)@.index_max),
            write ==> final(self)@ == (GpuBufferView { index_count: bytes@.len() / 4, ..old(self)@ }),
            !write ==> final(self)@ == old(self)@,
    {
        let size = bytes.len();
        if size >= self.index_max {
            return false;
        }
        self.index_count = size / K::index_stride();
        true
    }

    /// Takes vertex bytes, which are always written: the buffers are first
    /// made anew, for one quad per vertex the bytes hold, when the bytes are
    /// larger than the vertex buffer; the vertex count becomes the number of
    /// vertices and the index count the vertex count over the indices per quad.
    pub fn set_vertices_from(&mut self, bytes: &[u8]) -> (resized: Option<BufferPass>)
        requires
            bytes@.len() > old(self)@.vertex_max ==> quads_fit(
                bytes@.len() as int / K::spec_vertex_stride() as int,
                K::spec_vertex_stride() as int,
            ),
        ensures
            bytes@.len() > old(self)@.vertex_max <==> resized.is_some(),
            ({
                let n = bytes@.len() as int / K::spec_vertex_stride() as int;
                let mid = match resized {
                    Some(b) => resized_to(old(self)@, b),
                    None => old(self)@,
                };
                &&& (resized matches Some(b) ==> quad_pass(b, n, K::spec_vertex_stride() as int))
                &&& final(self)@ == (GpuBufferView {
                    vertex_count: n as nat,
                    index_count: (n / 6) as nat,
                    ..mid
                })
            }),
    {
        let size = bytes.len();
        let stride = K::vertex_stride();
        let mut resized: Option<BufferPass> = None;
        if size > self.vertex_max {
            resized = Some(self.resize(size / stride));
        }
        self.vertex_count = size / stride;
        self.index_count = self.vertex_count / K::index_offset();
        resized
    }

    /// Takes both buffers: the buffers are made anew, for one quad per
    /// vertex, when the vertex bytes are larger than the vertex buffer; index
    /// bytes larger than the index buffer then stop the call and nothing is
    /// written; otherwise both are written and the counts set as for
    /// `set_vertices_from`. Returns the new buffers, if any, and whether the
    /// bytes are to be written.
    pub fn set_buffers_from(&mut self, buffers: &BufferPass) -> (r: (Option<BufferPass>, bool))
        requires
            buffers.vertices@.len() > old(self)@.vertex_max ==> quads_fit(
                buffers.vertices@.len() as int / K::spec_vertex_stride() as int,
                K::spec_vertex_stride() as int,
            ),
            6 * (buffers.vertices@.len() as int / K::spec_vertex_stride() as int) <= usize::MAX,
        ensures
            buffers.vertices@.len() > old(self)@.vertex_max <==> r.0.is_some(),
            ({
                let n = buffers.vertices@.len() as int / K::spec_vertex_stride() as int;
                let mid = match r.0 {
                    Some(b) => resized_to(old(self)@, b),
                    None => old(self)@,
                };
                &&& (r.0 matches Some(b) ==> quad_pass(b, n, K::spec_vertex_stride() as int))
                &&& r.1 == (buffers.indices@.len() <= mid.index_max)
                &&& r.1 ==> final(self)@ == (GpuBufferView {
                    vertex_count: n as nat,
                    index_count: (6 * n) as nat,
                    ..mid
                })
                &&& !r.1 ==> final(self)@ == mid
            }),
    {
        let vertex_size = buffers.vertices.len();
        let index_size = buffers.indices.len();
        let stride = K::vertex_stride();
        let mut resized: Option<BufferPass> = None;
        if vertex_size > self.vertex_max {
            resized = Some(self.resize(vertex_size / stride));
        }
        if index_size > self.index_max {
            return (resized, false);
        }
        self.vertex_count = vertex_size / stride;
        self.index_count = self.vertex_count * K::index_offset();
        (resized, true)
    }

    pub fn vertex_count(&self) -> (r: usize)
        ensures
            r == self@.vertex_count,
    {
        self.vertex_count
    }

    pub fn vertex_max(&self) -> (r: usize)
        ensures
            r == self@.vertex_max,
    {
        self.vertex_max
    }

    pub fn vertex_stride(&self) -> (r: usize)
        ensures
            r == K::spec_vertex_stride(),
    {
        K::vertex_stride()
    }

    pub fn index_offset(&self) -> (r: usize)
        ensures
            r == 6,
    {
        K::index_offset()
    }

    /// The range of the vertices to draw: `bounds`, or `0` to the vertex count.
    pub fn vertices(&self, bounds: Option<(u64, u64)>) -> (r: (u64, u64))
        ensures
            r == range_or(bounds, self@.vertex_count as int),
    {
        match bounds {
            Some(b) => b,
            None => (0, self.vertex_count as u64),
        }
    }
}

} // verus!
