use ascending_demo::graphics::sprite::Allocation;
use ascending_demo::graphics::text::{f32_round_trip_i32, glyph_upload, GlyphContent, GlyphPlacement, GlyphUpload, Text};
use ascending_demo::gui::button::Color;

fn area(layer: usize) -> Allocation {
    Allocation { x: 4, y: 8, width: 10, height: 12, layer }
}

#[test]
fn new_text_colour() {
    let t = Text::new(None);
    assert_eq!(t.color, Color::rgba(0, 0, 0, 255));
    let t = Text::new(Some(Color::rgba(1, 2, 3, 4)));
    assert_eq!(t.color, Color::rgba(1, 2, 3, 4));
    assert!(t.text_vertices.is_empty());
    assert!(!t.needs_update(false));
    assert!(t.needs_update(true));
}

#[test]
fn glyph_quads_split_by_atlas() {
    let mut t = Text::new(None);
    let glyphs = vec![
        GlyphPlacement { x_int: 3, y_int: 2, line_y: 10, color: None, atlas: Some((area(1), false)) },
        GlyphPlacement { x_int: 0, y_int: 0, line_y: 0, color: None, atlas: None },
        GlyphPlacement { x_int: 20, y_int: 0, line_y: 10, color: Some(Color::rgba(9, 9, 9, 9)), atlas: Some((area(2), true)) },
    ];
    t.create_quad([100, 200, 5], &glyphs);
    assert_eq!(t.text_vertices.len(), 4);
    assert_eq!(t.emoji_vertices.len(), 4);
    let v = &t.text_vertices;
    assert_eq!(v[0].position, [103, 212, 5]);
    assert_eq!(v[0].tex_coord, [4, 20]);
    assert_eq!(v[1].position, [114, 212, 5]);
    assert_eq!(v[1].tex_coord, [15, 20]);
    assert_eq!(v[2].position, [114, 224, 5]);
    assert_eq!(v[2].tex_coord, [15, 8]);
    assert_eq!(v[3].position, [103, 224, 5]);
    assert_eq!(v[3].tex_coord, [4, 8]);
    assert_eq!(v[0].layer, 1);
    assert_eq!(v[0].color, Color::rgba(0, 0, 0, 255));
    let e = &t.emoji_vertices;
    assert_eq!(e[0].position, [120, 210, 5]);
    assert_eq!(e[0].color, Color::rgba(255, 255, 255, 255));
    assert_eq!(e[0].layer, 2);
}

#[test]
fn layout_colour_is_used_for_plain_glyphs() {
    let mut t = Text::new(None);
    let glyphs = vec![GlyphPlacement {
        x_int: 0,
        y_int: 0,
        line_y: 0,
        color: Some(Color::rgba(5, 6, 7, 8)),
        atlas: Some((area(0), false)),
    }];
    t.create_quad([0, 0, 0], &glyphs);
    assert_eq!(t.text_vertices[2].color, Color::rgba(5, 6, 7, 8));
    t.reset_cleared();
    assert!(!t.cleared);
}

#[test]
fn update_rebuilds_only_when_asked() {
    let mut t = Text::new(None);
    let glyphs = vec![GlyphPlacement { x_int: 0, y_int: 0, line_y: 0, color: None, atlas: Some((area(0), false)) }];
    assert!(!t.update(false, [0, 0, 0], &glyphs));
    assert!(t.text_vertices.is_empty());
    assert!(t.update(true, [0, 0, 0], &glyphs));
    assert_eq!(t.text_vertices.len(), 4);
    t.cleared = true;
    assert!(t.update(false, [1, 0, 0], &glyphs));
    assert_eq!(t.text_vertices[0].position, [1, 0, 0]);
}

#[test]
fn glyph_upload_targets() {
    use_glyph_upload();
}

fn use_glyph_upload() {
    assert_eq!(glyph_upload(true, false, GlyphContent::Mask, 3, 3), GlyphUpload::Skip);
    assert_eq!(glyph_upload(false, true, GlyphContent::Color, 3, 3), GlyphUpload::Skip);
    assert_eq!(glyph_upload(false, false, GlyphContent::SubpixelMask, 3, 3), GlyphUpload::Skip);
    assert_eq!(glyph_upload(false, false, GlyphContent::Mask, 0, 3), GlyphUpload::Skip);
    assert_eq!(glyph_upload(false, false, GlyphContent::Mask, 3, 3), GlyphUpload::Text);
    assert_eq!(glyph_upload(false, false, GlyphContent::Color, 3, 3), GlyphUpload::Emoji);
}

#[test]
fn round_trip_matches_f32() {
    let samples: Vec<i32> = vec![
        0, 1, -1, 16_777_216, 16_777_217, 16_777_218, 16_777_219, -16_777_217, 33_554_435, 123_456_789,
        -123_456_789, i32::MAX, i32::MAX - 64, i32::MIN, i32::MIN + 1, 2_147_483_520, 2_147_483_583,
    ];
    for v in samples {
        assert_eq!(f32_round_trip_i32(v), v as f32 as i32, "at {}", v);
    }
    let mut v: i64 = i32::MIN as i64;
    while v <= i32::MAX as i64 {
        let x = v as i32;
        assert_eq!(f32_round_trip_i32(x), x as f32 as i32, "at {}", x);
        v += 9_973_237;
    }
}

#[test]
fn far_edges_use_the_rounded_corner() {
    let mut t = Text::new(None);
    let glyphs = vec![GlyphPlacement { x_int: 16_777_217, y_int: 0, line_y: 0, color: None, atlas: Some((area(0), false)) }];
    t.create_quad([0, 0, 0], &glyphs);
    assert_eq!(t.text_vertices[0].position[0], 16_777_217);
    assert_eq!(t.text_vertices[1].position[0], 16_777_216 + 11);
}
