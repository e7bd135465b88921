use vstd::prelude::*;

verus! {

/// A vertex that can write itself out as bytes.
pub trait VertexBufferExt {
    /// The bytes of this vertex.
    spec fn encoding(&self) -> Seq<u8>;

    /// Appends the bytes of this vertex to `bytes`.
    fn to_bytes(&self, bytes: &mut Vec<u8>)
        ensures
            final(bytes)@ == old(bytes)@ + self.encoding(),
    ;
}

/// The bytes of `vertices`, one vertex after another.
pub open spec fn encode_all<V: VertexBufferExt>(vertices: Seq<V>) -> Seq<u8>
    decreases vertices.len(),
{
    if vertices.len() == 0 {
        Seq::empty()
    } else {
        encode_all(vertices.drop_last()) + vertices.last().encoding()
    }
}

/// The bytes of two runs of vertices are the bytes of the first followed
/// by those of the second, so appending vertices to a builder appends their
/// bytes to what it writes out.
pub proof fn lemma_encode_all_append<V: VertexBufferExt>(a: Seq<V>, b: Seq<V>)
    ensures
        encode_all(a + b) == encode_all(a) + encode_all(b),
    decreases b.len(),
{
    if b.len() == 0 {
        assert(a + b =~= a);
        assert(encode_all(a) + encode_all(b) =~= encode_all(a));
    } else {
        lemma_encode_all_append(a, b.drop_last());
        assert((a + b).drop_last() =~= a + b.drop_last());
        assert((a + b).last() == b.last());
        assert(encode_all(a + b) =~= encode_all(a) + encode_all(b));
    }
}

/// Vertices and indices gathered for one buffer.
#[derive(Debug)]
pub struct VertexBufferBuilder<V: VertexBufferExt> {
    pub vertices: Vec<V>,
    pub indices: Vec<usize>,
}

impl<V: VertexBufferExt> VertexBufferBuilder<V> {
    /// A builder holding `vertices` and no indices.
    pub fn new(vertices: Vec<V>) -> (r: Self)
        ensures
            r.vertices@ == vertices@,
            r.indices@ == Seq::<usize>::empty(),
    {
        VertexBufferBuilder { vertices, indices: Vec::new() }
    }

    /// The builder with its indices replaced by `indices`.
    pub fn with_indices(self, indices: Vec<usize>) -> (r: Self)
        ensures
            r.vertices@ == self.vertices@,
            r.indices@ == indices@,
    {
        let mut b = self;
        b.indices = indices;
        b
    }

    /// Adds `vertices` and `indices` after those already held.
    pub fn append(&mut self, vertices: Vec<V>, indices: Vec<usize>)
        ensures
            final(self).vertices@ == old(self).vertices@ + vertices@,
            final(self).indices@ == old(self).indices@ + indices@,
    {
        let mut vertices = vertices;
        let mut indices = indices;
        self.vertices.append(&mut vertices);
        self.indices.append(&mut indices);
    }

    /// The bytes of every vertex held, in order.
    pub fn to_bytes(&self) -> (r: Vec<u8>)
        ensures
            r@ == encode_all(self.vertices@),
    {
        let mut bytes: Vec<u8> = Vec::new();
        let mut i: usize = 0;
        while i < self.vertices.len()
            invariant
                i <= self.vertices@.len(),
                bytes@ == encode_all(self.vertices@.subrange(0, i as int)),
            decreases self.vertices@.len() - i,
        {
            proof {
                let s = self.vertices@.subrange(0, i as int + 1);
                assert(s.drop_last() =~= self.vertices@.subrange(0, i as int));
                assert(s.last() == self.vertices@[i as int]);
            }
            self.vertices[i].to_bytes(&mut bytes);
            i += 1;
        }
        proof {
            assert(self.vertices@.subrange(0, self.vertices@.len() as int) =~= self.vertices@);
        }
        bytes
    }
}

/// Built vertex and index data, with their sizes in bytes, ready for the
/// GPU buffers made from them.
#[derive(Debug)]
pub struct VertexBuffer<V> {
    vertices: Vec<V>,
    indices: Vec<usize>,
    bytes: Vec<u8>,
    vertex_size: u64,
    indice_size: u64,
}

impl<V> VertexBuffer<V> {
    pub closed spec fn spec_vertices(&self) -> Seq<V> {
        self.vertices@
    }

    pub closed spec fn spec_indices(&self) -> Seq<usize> {
        self.indices@
    }

    pub closed spec fn spec_bytes(&self) -> Seq<u8> {
        self.bytes@
    }

    pub closed spec fn spec_vertex_size(&self) -> u64 {
        self.vertex_size
    }

    pub closed spec fn spec_indice_size(&self) -> u64 {
        self.indice_size
    }

    pub fn vertices(&self) -> (r: &[V])
        ensures
            r@ == self.spec_vertices(),
    {
        self.vertices.as_slice()
    }

    pub fn indices(&self) -> (r: &[usize])
        ensures
            r@ == self.spec_indices(),
    {
        self.indices.as_slice()
    }

    pub fn bytes(&self) -> (r: &[u8])
        ensures
            r@ == self.spec_bytes(),
    {
        self.bytes.as_slice()
    }

    /// The size in bytes of the vertex data.
    pub fn vertex_size(&self) -> (r: u64)
        ensures
            r == self.spec_vertex_size(),
    {
        self.vertex_size
    }

    /// The size in bytes of the index data.
    pub fn indice_size(&self) -> (r: u64)
        ensures
            r == self.spec_indice_size(),
    {
        self.indice_size
    }
}

impl<V: VertexBufferExt> VertexBufferBuilder<V> {
    /// The vertices and indices with the vertices' bytes and both sizes.
    pub fn build(self) -> (r: VertexBuffer<V>)
        requires
            vstd::layout::size_of::<usize>() * self.indices@.len() <= usize::MAX,
        ensures
            r.spec_vertices() == self.vertices@,
            r.spec_indices() == self.indices@,
            r.spec_bytes() == encode_all(self.vertices@),
            r.spec_vertex_size() == encode_all(self.vertices@).len(),
            r.spec_indice_size() == vstd::layout::size_of::<usize>() * self.indices@.len(),
    {
        let bytes = self.to_bytes();
        proof {
            broadcast use vstd::layout::layout_of_primitives;

            assert(vstd::layout::size_of::<u8>() == 1);
        }
        let n = bytes.len();
        let byte_slice = bytes.as_slice();
        assert(byte_slice@.len() == n);
        let vertex_size = size_of_slice(byte_slice) as u64;
        let indice_size = size_of_slice(self.indices.as_slice()) as u64;
        VertexBuffer { vertices: self.vertices, indices: self.indices, bytes, vertex_size, indice_size }
    }
}

/// The size in bytes of the elements of `slice`.
pub fn size_of_slice<T: Sized>(slice: &[T]) -> (r: usize)
    requires
        vstd::layout::size_of::<T>() * slice@.len() <= usize::MAX,
    ensures
        r == vstd::layout::size_of::<T>() * slice@.len(),
{
    std::mem::size_of::<T>() * slice.len()
}

} // verus!
