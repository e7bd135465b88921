use ascending_demo::graphics::gpu_buffer::{quad_buffer_pass, quad_indices, BufferLayout, BufferPass, GpuBuffer};
use ascending_demo::graphics::map::{MapBuffer, MapVertex};
use ascending_demo::graphics::sprite::SpriteVertex;
use ascending_demo::graphics::text::TextVertex;
use ascending_demo::graphics::vertex_buffer::VertexBuffer;

#[test]
fn buffer_pass_new_is_empty() {
    let b = BufferPass::new();
    assert!(b.vertices.is_empty());
    assert!(b.indices.is_empty());
}

#[test]
fn quad_indices_two_quads() {
    assert_eq!(quad_indices(2), vec![0, 1, 2, 0, 2, 3, 4, 5, 6, 4, 6, 7]);
    assert!(quad_indices(0).is_empty());
}

#[test]
fn quad_buffer_pass_sizes() {
    let b = quad_buffer_pass(3, 44);
    assert_eq!(b.vertices.len(), 3 * 4 * 44);
    assert!(b.vertices.iter().all(|x| *x == 0));
    assert_eq!(b.indices.len(), 3 * 6 * 4);
    let words: Vec<u32> = b.indices.chunks(4).map(|c| u32::from_ne_bytes([c[0], c[1], c[2], c[3]])).collect();
    assert_eq!(words, quad_indices(3));
}

#[test]
fn vertex_strides() {
    assert_eq!(SpriteVertex::vertex_stride(), 44);
    assert_eq!(MapVertex::vertex_stride(), 20);
    assert_eq!(SpriteVertex::index_offset(), 6);
    assert_eq!(SpriteVertex::index_stride(), 4);
    assert_eq!(SpriteVertex::default_buffer().vertices.len(), 10_000 * 4 * 44);
    assert_eq!(MapVertex::default_buffer().indices.len(), 720 * 24);
}

#[test]
fn gpu_buffer_counts() {
    let (buf, pass) = GpuBuffer::<SpriteVertex>::with_capacity(2);
    assert_eq!(pass.vertices.len(), 2 * 4 * 44);
    assert_eq!(buf.vertex_count(), 0);
    assert_eq!(buf.vertex_max(), 352);
    assert_eq!(buf.index_count(), 12);
    assert_eq!(buf.index_max(), 48);
    assert_eq!(buf.index_stride(), 4);
    assert_eq!(buf.vertex_stride(), 44);
    assert_eq!(buf.index_offset(), 6);
    assert_eq!(buf.indices(None), (0, 48));
    assert_eq!(buf.indices(Some((4, 8))), (4, 8));
    assert_eq!(buf.vertices(None), (0, 0));
}

#[test]
fn gpu_buffer_set_indices() {
    let (mut buf, _) = GpuBuffer::<SpriteVertex>::with_capacity(2);
    assert!(buf.set_indices_from(&[0u8; 8]));
    assert_eq!(buf.index_count(), 2);
    assert!(!buf.set_indices_from(&[0u8; 48]));
    assert_eq!(buf.index_count(), 2);
    buf.set_index_count(7);
    assert_eq!(buf.index_count(), 7);
}

#[test]
fn gpu_buffer_set_vertices_without_resize() {
    let (mut buf, _) = GpuBuffer::<SpriteVertex>::with_capacity(4);
    let resized = buf.set_vertices_from(&vec![0u8; 88]);
    assert!(resized.is_none());
    assert_eq!(buf.vertex_count(), 2);
    assert_eq!(buf.index_count(), 0);
    assert!(buf.set_vertices_from(&vec![0u8; 44 * 12]).is_none());
    assert_eq!(buf.vertex_count(), 12);
    assert_eq!(buf.index_count(), 2);
    assert_eq!(buf.vertex_max(), 704);
}

#[test]
fn gpu_buffer_set_vertices_with_resize() {
    let (mut buf, _) = GpuBuffer::<MapVertex>::with_capacity(1);
    let resized = buf.set_vertices_from(&vec![0u8; 200]);
    let pass = resized.expect("the buffer grows");
    assert_eq!(pass.vertices.len(), 10 * 4 * 20);
    assert_eq!(buf.vertex_max(), 800);
    assert_eq!(buf.vertex_count(), 10);
    assert_eq!(buf.index_count(), 1);
    assert_eq!(buf.index_max(), 240);
}

#[test]
fn gpu_buffer_set_buffers_refuses_large_indices() {
    let (mut buf, _) = GpuBuffer::<SpriteVertex>::with_capacity(1);
    let pass = BufferPass { vertices: vec![0u8; 44], indices: vec![0u8; 100] };
    let (resized, write) = buf.set_buffers_from(&pass);
    assert!(resized.is_none());
    assert!(!write);
    assert_eq!(buf.vertex_count(), 0);
    let pass = BufferPass { vertices: vec![0u8; 44], indices: vec![0u8; 24] };
    let (resized, write) = buf.set_buffers_from(&pass);
    assert!(resized.is_none());
    assert!(write);
    assert_eq!(buf.vertex_count(), 1);
    assert_eq!(buf.index_count(), 6);
}

#[test]
fn gpu_buffer_new_uses_default_size() {
    let (buf, pass) = GpuBuffer::<MapVertex>::new();
    assert_eq!(buf.vertex_max(), pass.vertices.len());
    assert_eq!(buf.vertex_max(), 720 * 4 * 20);
    let made = GpuBuffer::<MapVertex>::create_buffer(&pass);
    assert_eq!(made.index_count(), 720 * 6);
}

#[test]
fn map_buffer_new_and_set() {
    let (mut mb, pass, indices) = MapBuffer::new();
    assert_eq!(mb.vertex_count, 0);
    assert_eq!(mb.indice_count, 2352);
    assert_eq!(pass.vertices.len(), 1568 * 20);
    assert_eq!(&indices[0..12], &[0, 1, 2, 0, 2, 3, 1, 2, 3, 1, 3, 4]);
    assert!(mb.set_buffer(&vec![0u8; 240]));
    assert_eq!(mb.vertex_count, 10);
    assert!(!mb.set_buffer(&vec![0u8; 1568 * 24]));
    assert_eq!(mb.vertex_count, 10);
    mb.set_indice_count(5);
    assert_eq!(mb.indice_count, 5);
}

#[test]
fn fixed_vertex_buffer() {
    use_fixed_vertex_buffer();
}

fn use_fixed_vertex_buffer() {
    let (mut vb, pass) = VertexBuffer::<MapVertex>::with_capacity(2);
    assert_eq!(vb.buffer_max(), 160);
    assert_eq!(vb.buffer_stride(), 20);
    assert_eq!(vb.indice_count(), 12);
    assert_eq!(pass.indices.len(), 48);
    assert_eq!(vb.vertex_count(), 0);
    assert!(vb.set_buffer(&[0u8; 100]));
    assert_eq!(vb.vertex_count(), 5);
    assert!(!vb.set_buffer(&[0u8; 160]));
    assert_eq!(vb.vertex_count(), 5);
    vb.set_indice_count(3);
    assert_eq!(vb.indice_count(), 3);
    let (d, _) = VertexBuffer::<SpriteVertex>::new();
    assert_eq!(d.buffer_max(), 10_000 * 4 * 44);
}

#[test]
fn text_vertex_layout_and_defaults() {
    use_text_layout();
}

fn use_text_layout() {
    assert_eq!(TextVertex::vertex_stride(), 44);
    assert_eq!(TextVertex::default_buffer().indices.len(), 4096 * 24);
    let t = TextVertex::default();
    assert_eq!(t.position, [0, 0, 0]);
    let s = SpriteVertex::default();
    assert_eq!(s.position, [0, 0, 0]);
    assert_eq!(s.time, 0);
    let m = MapVertex::default();
    assert_eq!(m.tex_coord, [0, 0]);
}

#[test]
fn fits_quads_limits() {
    use_fits_quads();
}

fn use_fits_quads() {
    assert!(ascending_demo::graphics::gpu_buffer::fits_quads(10, 44));
    assert!(ascending_demo::graphics::gpu_buffer::fits_quads(1 << 30, 4));
    assert!(!ascending_demo::graphics::gpu_buffer::fits_quads((1 << 30) + 1, 4));
    assert!(!ascending_demo::graphics::gpu_buffer::fits_quads(1 << 30, usize::MAX));
}
