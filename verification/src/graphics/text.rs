use crate::graphics::gpu_buffer::{quad_buffer_pass, BufferLayout, BufferPass};
use crate::graphics::sprite::{sat_i32, saturating_add_i32, Allocation};
use crate::gui::button::Color;
use vstd::prelude::*;

verus! {

/// One corner of a glyph quad, in whole pixels; turned into the shader's
/// floating point position when written out.
#[derive(Clone, Copy, Debug)]
pub struct TextVertex {
    pub position: [i32; 3],
    pub tex_coord: [u16; 2],
    pub layer: u32,
    pub color: Color,
}

impl Default for TextVertex {
    fn default() -> (r: Self)
        ensures
            r.position == [0i32, 0, 0],
            r.tex_coord == [0u16, 0],
            r.layer == 0,
            r.color == (Color { r: 0, g: 0, b: 0, a: 0 }),
    {
        TextVertex { position: [0, 0, 0], tex_coord: [0, 0], layer: 0, color: Color { r: 0, g: 0, b: 0, a: 0 } }
    }
}

impl BufferLayout for TextVertex {
    open spec fn spec_vertex_stride() -> nat {
        44
    }

    open spec fn spec_default_capacity() -> nat {
        4096
    }

    fn index_offset() -> (r: usize) {
        6
    }

    fn index_stride() -> (r: usize) {
        4
    }

    fn vertex_stride() -> (r: usize) {
        44
    }

    fn with_capacity(capacity: usize) -> (r: BufferPass) {
        quad_buffer_pass(capacity, 44)
    }

    fn default_buffer() -> (r: BufferPass) {
        Self::with_capacity(4096)
    }
}

/// A laid out glyph: its offsets within its line, the line's offset, the
/// colour the layout gave it, and where the glyph's image sits in the glyph
/// atlases (with `true` for the colour atlas), if it is there.
#[derive(Clone, Copy, Debug)]
pub struct GlyphPlacement {
    pub x_int: i32,
    pub y_int: i32,
    pub line_y: i32,
    pub color: Option<Color>,
    pub atlas: Option<(Allocation, bool)>,
}

/// The spacing of `f32` values around a magnitude `m`: 1 below 2^24, then
/// doubling with each power of two.
pub open spec fn f32_spacing(m: nat) -> nat
    decreases m,
{
    if m < 0x100_0000 {
        1
    } else {
        2 * f32_spacing(m / 2)
    }
}

/// `m` rounded to a multiple of `u`, halves to the even multiple.
pub open spec fn round_half_even(m: nat, u: nat) -> nat {
    let q = m / u;
    let r = m % u;
    if 2 * r > u || (2 * r == u && q % 2 == 1) {
        ((q + 1) * u) as nat
    } else {
        (q * u) as nat
    }
}

/// An `i32` turned into the nearest `f32` and back into an `i32`, the
/// conversion back held to the `i32` range.
pub open spec fn f32_round_trip(v: i32) -> i32 {
    let m: nat = if v < 0 { (-v) as nat } else { v as nat };
    let r = round_half_even(m, f32_spacing(m));
    let s: int = if v < 0 { -r } else { r as int };
    sat_i32(s)
}

/// `v as f32 as i32`: the nearest `f32` to `v` (halves to even), as an
/// `i32`, the largest `i32` where it lies above.
pub fn f32_round_trip_i32(v: i32) -> (r: i32)
    ensures
        r == f32_round_trip(v),
{
    let m: u64 = if v < 0 { (-(v as i64)) as u64 } else { v as u64 };
    let ghost gm: nat = m as nat;
    let mut k: u64 = m;
    let mut u: u64 = 1;
    while k >= 0x100_0000
        invariant
            f32_spacing(gm) == u * f32_spacing(k as nat),
            1 <= u <= 0x100_0000,
            u * k <= gm,
            gm <= 0x8000_0000,
        decreases k,
    {
        let ghost k0 = k;
        assert(f32_spacing(k0 as nat) == 2 * f32_spacing((k0 / 2) as nat));
        assert(u * (2 * f32_spacing((k0 / 2) as nat)) == (2 * u) * f32_spacing((k0 / 2) as nat)) by (nonlinear_arith);
        assert(u * k0 >= u * 0x100_0000) by (nonlinear_arith)
            requires
                k0 >= 0x100_0000,
                u >= 1,
        ;
        assert((2 * u) * (k0 / 2) <= u * k0) by (nonlinear_arith)
            requires
                u >= 1,
        ;
        k = k / 2;
        u = u * 2;
    }
    assert(f32_spacing(k as nat) == 1);
    assert(u * f32_spacing(k as nat) == u) by (nonlinear_arith)
        requires
            f32_spacing(k as nat) == 1,
    ;
    assert(f32_spacing(gm) == u);
    let q = m / u;
    let rem = m % u;
    let rounded: u64 = if 2 * rem > u || (2 * rem == u && q % 2 == 1) {
        assert(q * u + rem == m) by (nonlinear_arith)
            requires
                q == m / u,
                rem == m % u,
                u >= 1,
        ;
        assert((q + 1) * u == q * u + u) by (nonlinear_arith);
        (q + 1) * u
    } else {
        assert(q * u <= m) by (nonlinear_arith)
            requires
                q == m / u,
                u >= 1,
        ;
        q * u
    };
    assert(rounded as nat == round_half_even(gm, f32_spacing(gm)));
    assert(rounded <= 0x8000_0000 + 0x100_0000);
    let signed: i64 = if v < 0 { -(rounded as i64) } else { rounded as i64 };
    if signed > i32::MAX as i64 {
        i32::MAX
    } else if signed < i32::MIN as i64 {
        i32::MIN
    } else {
        signed as i32
    }
}

/// The glyph's quad can be placed without leaving the `i32` range.
pub open spec fn glyph_fits(pos: [i32; 3], g: GlyphPlacement) -> bool {
    g.atlas matches Some((a, _)) ==> {
        &&& i32::MIN <= pos[0] + g.x_int <= i32::MAX
        &&& i32::MIN <= pos[1] + g.line_y <= i32::MAX
        &&& i32::MIN <= pos[1] + g.line_y + g.y_int <= i32::MAX
        &&& (a.width as i32) < i32::MAX
    }
}

/// Corner of a glyph quad at `(px, py)` showing atlas point `(tu, tv)`.
pub open spec fn glyph_corner(z: i32, a: Allocation, c: Color, px: i32, py: i32, tu: u16, tv: u16) -> TextVertex {
    TextVertex { position: [px, py, z], tex_coord: [tu, tv], layer: a.layer as u32, color: c }
}

/// The colour a glyph is drawn in: white from the colour atlas, else the
/// layout's colour or the text's own.
pub open spec fn glyph_color(g: GlyphPlacement, is_color: bool, default: Color) -> Color {
    if is_color {
        Color { r: 255, g: 255, b: 255, a: 255 }
    } else {
        match g.color {
            Some(c) => c,
            None => default,
        }
    }
}

/// The quad of a glyph found at `a`: one pixel wider than its atlas area,
/// placed at the text position plus the glyph's offsets; its far edges are
/// measured from that corner as the nearest `f32` gives it back.
pub open spec fn glyph_quad(pos: [i32; 3], g: GlyphPlacement, a: Allocation, is_color: bool, default: Color) -> Seq<TextVertex> {
    let u = a.x as i32;
    let v = a.y as i32;
    let width = a.width as i32 + 1;
    let height = a.height as i32;
    let x = pos[0] + g.x_int;
    let y = pos[1] + g.line_y + g.y_int;
    let w = sat_i32(f32_round_trip(x as i32) + width);
    let h = sat_i32(f32_round_trip(y as i32) + height);
    let u1 = u as u16;
    let v1 = v as u16;
    let u2 = sat_i32(u + width) as u16;
    let v2 = sat_i32(v + height) as u16;
    let c = glyph_color(g, is_color, default);
    seq![
        glyph_corner(pos[2], a, c, x as i32, y as i32, u1, v2),
        glyph_corner(pos[2], a, c, w, y as i32, u2, v2),
        glyph_corner(pos[2], a, c, w, h, u2, v1),
        glyph_corner(pos[2], a, c, x as i32, h, u1, v1),
    ]
}

/// A glyph quad: four corners running bottom left, bottom right, top right,
/// top left from the glyph's corner; every corner drawn in white for a colour
/// glyph and otherwise in the layout's colour or else the text's, on the
/// glyph's atlas layer; texture points from the area's corner `(u, v)` to
/// the far one, the bottom edge showing the far v.
pub proof fn lemma_glyph_quad_shape(pos: [i32; 3], g: GlyphPlacement, a: Allocation, is_color: bool, default: Color)
    ensures
        glyph_quad(pos, g, a, is_color, default).len() == 4,
        forall|k: int|
            0 <= k < 4 ==> {
                let v = #[trigger] glyph_quad(pos, g, a, is_color, default)[k];
                &&& v.color == (if is_color {
                    Color { r: 255, g: 255, b: 255, a: 255 }
                } else {
                    match g.color {
                        Some(c) => c,
                        None => default,
                    }
                })
                &&& v.layer == a.layer as u32
                &&& v.position[2] == pos[2]
                &&& (k == 0 || k == 3) ==> v.position[0] == (pos[0] + g.x_int) as i32 && v.tex_coord[0] == (a.x as i32) as u16
                &&& (k == 0 || k == 1) ==> v.position[1] == (pos[1] + g.line_y + g.y_int) as i32 && v.tex_coord[1]
                    == sat_i32(a.y as i32 + a.height as i32) as u16
                &&& (k == 2 || k == 3) ==> v.tex_coord[1] == (a.y as i32) as u16
            },
{
    assert forall|k: int| 0 <= k < 4 implies {
        let v = #[trigger] glyph_quad(pos, g, a, is_color, default)[k];
        &&& v.color == (if is_color {
            Color { r: 255, g: 255, b: 255, a: 255 }
        } else {
            match g.color {
                Some(c) => c,
                None => default,
            }
        })
        &&& v.layer == a.layer as u32
        &&& v.position[2] == pos[2]
        &&& (k == 0 || k == 3) ==> v.position[0] == (pos[0] + g.x_int) as i32 && v.tex_coord[0] == (a.x as i32) as u16
        &&& (k == 0 || k == 1) ==> v.position[1] == (pos[1] + g.line_y + g.y_int) as i32 && v.tex_coord[1]
            == sat_i32(a.y as i32 + a.height as i32) as u16
        &&& (k == 2 || k == 3) ==> v.tex_coord[1] == (a.y as i32) as u16
    } by {
        if k == 0 {
        } else if k == 1 {
        } else if k == 2 {
        } else {
        }
    }
}

/// The quads of `glyphs`, plain glyphs and colour glyphs apart, in order;
/// glyphs not in either atlas are left out.
pub open spec fn text_quads(pos: [i32; 3], glyphs: Seq<GlyphPlacement>, default: Color) -> (Seq<TextVertex>, Seq<TextVertex>)
    decreases glyphs.len(),
{
    if glyphs.len() == 0 {
        (Seq::empty(), Seq::empty())
    } else {
        let (t, e) = text_quads(pos, glyphs.drop_last(), default);
        let g = glyphs.last();
        match g.atlas {
            Some((a, is_color)) => if is_color {
                (t, e + glyph_quad(pos, g, a, true, default))
            } else {
                (t + glyph_quad(pos, g, a, false, default), e)
            },
            None => (t, e),
        }
    }
}

/// What a rasterised glyph image holds: colour pixels, a coverage mask, or
/// a subpixel mask (which is not drawn).
#[derive(Clone, Copy, Debug, PartialEq, Eq, Structural)]
pub enum GlyphContent {
    Color,
    Mask,
    SubpixelMask,
}

/// Where a glyph image goes before its quad is built.
#[derive(Clone, Copy, Debug, PartialEq, Eq, Structural)]
pub enum GlyphUpload {
    /// Nothing to upload: it is in an atlas already, is a subpixel mask, or
    /// is empty.
    Skip,
    /// Into the plain glyph atlas.
    Text,
    /// Into the colour glyph atlas.
    Emoji,
}

/// The upload of a glyph image of `content` and size `width` by `height`,
/// given whether the plain or the colour atlas holds the glyph already.
pub open spec fn glyph_upload_spec(
    in_text_atlas: bool,
    in_emoji_atlas: bool,
    content: GlyphContent,
    width: u32,
    height: u32,
) -> GlyphUpload {
    if in_text_atlas || in_emoji_atlas || content == GlyphContent::SubpixelMask || width == 0 || height == 0 {
        GlyphUpload::Skip
    } else if content == GlyphContent::Color {
        GlyphUpload::Emoji
    } else {
        GlyphUpload::Text
    }
}

/// Decides where a glyph image is uploaded: glyphs already in either atlas,
/// subpixel masks and empty images are skipped; colour images go to the
/// colour atlas and masks to the plain one. A refused upload is the caller's
/// `AtlasFull` error.
pub fn glyph_upload(in_text_atlas: bool, in_emoji_atlas: bool, content: GlyphContent, width: u32, height: u32) -> (r:
    GlyphUpload)
    ensures
        r == glyph_upload_spec(in_text_atlas, in_emoji_atlas, content, width, height),
{
    if in_text_atlas || in_emoji_atlas {
        return GlyphUpload::Skip;
    }
    let is_color = match content {
        GlyphContent::Color => true,
        GlyphContent::Mask => false,
        GlyphContent::SubpixelMask => {
            return GlyphUpload::Skip;
        },
    };
    if width > 0 && height > 0 {
        if is_color {
            GlyphUpload::Emoji
        } else {
            GlyphUpload::Text
        }
    } else {
        GlyphUpload::Skip
    }
}

/// The glyph quads of a text and its colour.
pub struct Text {
    /// Quads of the glyphs from the colour atlas.
    pub emoji_vertices: Vec<TextVertex>,
    /// Quads of the plain glyphs.
    pub text_vertices: Vec<TextVertex>,
    /// The colour of glyphs the layout gives none.
    pub color: Color,
    /// Everything is to be drawn again.
    pub cleared: bool,
}

impl Text {
    /// An empty text in `color`, black if none is given.
    pub fn new(color: Option<Color>) -> (r: Self)
        ensures
            r.color == (match color {
                Some(c) => c,
                None => Color { r: 0, g: 0, b: 0, a: 255 },
            }),
            r.emoji_vertices@ == Seq::<TextVertex>::empty(),
            r.text_vertices@ == Seq::<TextVertex>::empty(),
            !r.cleared,
    {
        let c = match color {
            Some(c) => c,
            None => Color::rgba(0, 0, 0, 255),
        };
        Text { emoji_vertices: Vec::new(), text_vertices: Vec::new(), color: c, cleared: false }
    }

    pub fn reset_cleared(&mut self)
        ensures
            !final(self).cleared,
            final(self).color == old(self).color,
            final(self).text_vertices@ == old(self).text_vertices@,
            final(self).emoji_vertices@ == old(self).emoji_vertices@,
    {
        self.cleared = false;
    }

    /// Whether the quads are to be built again: the layout changed or the
    /// text was cleared.
    pub fn needs_update(&self, redraw: bool) -> (r: bool)
        ensures
            r == (redraw || self.cleared),
    {
        redraw || self.cleared
    }

    /// Rebuilds the glyph quads when the layout changed (`redraw`) or the
    /// text was cleared, and says whether it did; otherwise nothing changes.
    pub fn update(&mut self, redraw: bool, pos: [i32; 3], glyphs: &Vec<GlyphPlacement>) -> (r: bool)
        requires
            redraw || old(self).cleared ==> forall|i: int|
                0 <= i < glyphs@.len() ==> glyph_fits(pos, #[trigger] glyphs@[i]),
        ensures
            r == (redraw || old(self).cleared),
            r ==> (final(self).text_vertices@, final(self).emoji_vertices@) == text_quads(
                pos,
                glyphs@,
                old(self).color,
            ),
            !r ==> final(self).text_vertices@ == old(self).text_vertices@ && final(self).emoji_vertices@
                == old(self).emoji_vertices@,
            final(self).color == old(self).color,
            final(self).cleared == old(self).cleared,
    {
        if self.needs_update(redraw) {
            self.create_quad(pos, glyphs);
            true
        } else {
            false
        }
    }

    /// The quad of one glyph found at `a`.
    fn glyph_vertices(&self, pos: [i32; 3], g: GlyphPlacement, a: Allocation, is_color: bool) -> (r: Vec<TextVertex>)
        requires
            glyph_fits(pos, g),
            g.atlas == Some((a, is_color)),
        ensures
            r@ == glyph_quad(pos, g, a, is_color, self.color),
    {
        let u = a.x as i32;
        let v = a.y as i32;
        let width = a.width as i32 + 1;
        let height = a.height as i32;
        let x = pos[0] + g.x_int;
        let y = pos[1] + g.line_y + g.y_int;
        let w = saturating_add_i32(f32_round_trip_i32(x), width);
        let h = saturating_add_i32(f32_round_trip_i32(y), height);
        let u1 = u as u16;
        let v1 = v as u16;
        let u2 = saturating_add_i32(u, width) as u16;
        let v2 = saturating_add_i32(v, height) as u16;
        let color = if is_color {
            Color::rgba(255, 255, 255, 255)
        } else {
            match g.color {
                Some(c) => c,
                None => self.color,
            }
        };
        let layer = a.layer as u32;
        let z = pos[2];
        let mut out: Vec<TextVertex> = Vec::new();
        out.push(TextVertex { position: [x, y, z], tex_coord: [u1, v2], layer, color });
        out.push(TextVertex { position: [w, y, z], tex_coord: [u2, v2], layer, color });
        out.push(TextVertex { position: [w, h, z], tex_coord: [u2, v1], layer, color });
        out.push(TextVertex { position: [x, h, z], tex_coord: [u1, v1], layer, color });
        proof {
            assert(out@ =~= glyph_quad(pos, g, a, is_color, self.color));
        }
        out
    }

    /// Builds the quads of the laid out glyphs at `pos`: plain glyphs and
    /// colour glyphs each in their own list, in layout order; a glyph in
    /// neither atlas is skipped.
    pub fn create_quad(&mut self, pos: [i32; 3], glyphs: &Vec<GlyphPlacement>)
        requires
            forall|i: int| 0 <= i < glyphs@.len() ==> glyph_fits(pos, #[trigger] glyphs@[i]),
        ensures
            (final(self).text_vertices@, final(self).emoji_vertices@) == text_quads(pos, glyphs@, old(self).color),
            final(self).color == old(self).color,
            final(self).cleared == old(self).cleared,
    {
        let mut text_buf: Vec<TextVertex> = Vec::new();
        let mut emoji_buf: Vec<TextVertex> = Vec::new();
        let mut i: usize = 0;
        while i < glyphs.len()
            invariant
                i <= glyphs@.len(),
                forall|k: int| 0 <= k < glyphs@.len() ==> glyph_fits(pos, #[trigger] glyphs@[k]),
                (text_buf@, emoji_buf@) == text_quads(pos, glyphs@.subrange(0, i as int), self.color),
            decreases glyphs@.len() - i,
        {
            let g = glyphs[i];
            proof {
                let s = glyphs@.subrange(0, i as int + 1);
                assert(s.drop_last() =~= glyphs@.subrange(0, i as int));
                assert(s.last() == g);
            }
            match g.atlas {
                Some((a, is_color)) => {
                    let mut quad = self.glyph_vertices(pos, g, a, is_color);
                    if is_color {
                        emoji_buf.append(&mut quad);
                    } else {
                        text_buf.append(&mut quad);
                    }
                },
                None => {},
            }
            i += 1;
        }
        proof {
            assert(glyphs@.subrange(0, glyphs@.len() as int) =~= glyphs@);
        }
        self.text_vertices = text_buf;
        self.emoji_vertices = emoji_buf;
    }
}

} // verus!
