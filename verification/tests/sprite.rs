use ascending_demo::graphics::sprite::{saturating_add_i32, Allocation, Sprite, SpriteBuffer};

fn area() -> Allocation {
    Allocation { x: 10, y: 20, width: 32, height: 16, layer: 2 }
}

#[test]
fn allocation_parts() {
    let a = area();
    assert_eq!(a.rect(), (10, 20, 32, 16));
    assert_eq!(a.position(), (10, 20));
    assert_eq!(a.size(), (32, 16));
}

#[test]
fn saturating_add() {
    assert_eq!(saturating_add_i32(1, 2), 3);
    assert_eq!(saturating_add_i32(i32::MAX, 1), i32::MAX);
    assert_eq!(saturating_add_i32(i32::MIN, -1), i32::MIN);
}

#[test]
fn new_and_default() {
    let s = Sprite::new(area());
    assert_eq!(s.texture, Some(area()));
    assert_eq!(s.color, [0, 0, 100, 100]);
    assert!(s.changed);
    assert!(s.vertices.is_empty());
    let d = Sprite::default();
    assert_eq!(d.texture, None);
    assert!(d.changed);
}

#[test]
fn quad_corners() {
    let mut s = Sprite::new(area());
    s.pos = [5, 7, 3];
    s.hw = [4, 6];
    s.uv = [1, 2, 20, 40];
    s.color = [9, 8, 70000, 6];
    s.frames = 3;
    s.animate = true;
    s.switch_time = 250;
    s.create_quad();
    assert!(!s.changed);
    assert_eq!(s.vertices.len(), 4);
    let v = &s.vertices;
    assert_eq!(v[0].position, [5, 7, 3]);
    assert_eq!(v[1].position, [8, 7, 3]);
    assert_eq!(v[2].position, [8, 12, 3]);
    assert_eq!(v[3].position, [5, 12, 3]);
    // u1 = 1 + 10, v1 = 2 + 20, width = min(20, 32), height = min(40, 16)
    assert_eq!(v[0].tex_coord, [11, 38]);
    assert_eq!(v[1].tex_coord, [31, 38]);
    assert_eq!(v[2].tex_coord, [31, 22]);
    assert_eq!(v[3].tex_coord, [11, 22]);
    assert_eq!(v[0].tex_hw, [20, 16]);
    assert_eq!(v[0].rg, [9, 8]);
    assert_eq!(v[0].ba, [(70000u32 as u16), 6]);
    assert_eq!(v[0].frames, [3, 1]);
    assert_eq!(v[0].time, 250);
    assert_eq!(v[0].layer, 2);
}

#[test]
fn quad_positions_saturate() {
    let mut s = Sprite::new(area());
    s.pos = [i32::MAX - 1, 0, 0];
    s.hw = [10, 1];
    s.create_quad();
    assert_eq!(s.vertices[1].position[0], i32::MAX);
    assert_eq!(s.vertices[2].position[1], 0);
}

#[test]
fn no_texture_no_quad() {
    let mut s = Sprite::default();
    s.hw = [1, 1];
    s.create_quad();
    assert!(s.vertices.is_empty());
    assert!(s.changed);
    assert!(s.update());
}

#[test]
fn update_builds_once() {
    let mut s = Sprite::new(area());
    s.hw = [2, 2];
    assert!(s.update());
    assert_eq!(s.vertices.len(), 4);
    assert!(!s.update());
    s.changed = true;
    assert!(s.update());
}

#[test]
fn fixed_sprite_buffer() {
    let (mut sb, indices) = SpriteBuffer::new();
    assert_eq!(sb.vertex_count, 0);
    assert_eq!(sb.indice_count, 60_000);
    assert_eq!(&indices[0..12], &[0, 1, 2, 0, 2, 3, 1, 2, 3, 1, 3, 4]);
    assert_eq!(indices[59_999], 9_999 + 3);
    assert!(sb.set_buffer(&vec![0u8; 400]));
    assert_eq!(sb.vertex_count, 10);
    assert!(!sb.set_buffer(&vec![0u8; 40 * 40_000]));
    assert_eq!(sb.vertex_count, 10);
    sb.set_indice_count(9);
    assert_eq!(sb.indice_count, 9);
}
