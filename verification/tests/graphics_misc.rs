use ascending_demo::graphics::layouts::{GroupType, ScreenGroup, ScreenUniform, TextColoredUniform};
use ascending_demo::graphics::vertexbuffer::{size_of_slice, VertexBufferBuilder, VertexBufferExt};

#[derive(Debug)]
struct Pair(u8, u8);

impl VertexBufferExt for Pair {
    fn encoding(&self) -> vstd::seq::Seq<u8> {
        vstd::seq::Seq::empty()
    }

    fn to_bytes(&self, bytes: &mut Vec<u8>) {
        bytes.push(self.0);
        bytes.push(self.1);
    }
}

#[test]
fn builder_collects_and_encodes() {
    let mut b = VertexBufferBuilder::new(vec![Pair(1, 2)]).with_indices(vec![0, 1]);
    assert_eq!(b.indices, vec![0, 1]);
    b.append(vec![Pair(3, 4), Pair(5, 6)], vec![2]);
    assert_eq!(b.vertices.len(), 3);
    assert_eq!(b.indices, vec![0, 1, 2]);
    assert_eq!(b.to_bytes(), vec![1, 2, 3, 4, 5, 6]);
}

#[test]
fn slice_sizes() {
    assert_eq!(size_of_slice(&[0u32; 5]), 20);
    assert_eq!(size_of_slice::<u8>(&[]), 0);
    assert_eq!(size_of_slice(&[0u64; 3]), 24);
}

#[test]
fn screen_group_writes_on_change() {
    let mut g = ScreenGroup::new(ScreenUniform { width: 800, height: 600 });
    assert!(!g.update(ScreenUniform { width: 800, height: 600 }));
    assert!(g.update(ScreenUniform { width: 1024, height: 600 }));
    assert_eq!(g.screen_size, ScreenUniform { width: 1024, height: 600 });
}

#[test]
fn group_type_labels() {
    assert_eq!(GroupType::default(), GroupType::Textures);
    assert_eq!(GroupType::Textures.sampler_label(), "Texture_sampler");
    assert_eq!(GroupType::Fonts.sampler_label(), "Font_Texture_sampler");
    assert_eq!(GroupType::Textures.bind_group_label(), "Texture Bind Group");
    assert_eq!(GroupType::Fonts.bind_group_label(), "Font Texture Bind Group");
    let u = TextColoredUniform { colored: 0 };
    assert_eq!(u.colored, 0);
}

#[test]
fn builder_builds_bytes_and_sizes() {
    let b = VertexBufferBuilder::new(vec![Pair(1, 2), Pair(3, 4)]).with_indices(vec![0, 1, 2]);
    let built = b.build();
    assert_eq!(built.bytes(), &[1, 2, 3, 4]);
    assert_eq!(built.indices(), &[0, 1, 2]);
    assert_eq!(built.vertices().len(), 2);
    assert_eq!(built.vertex_size(), 4);
    assert_eq!(built.indice_size(), 3 * std::mem::size_of::<usize>() as u64);
}
