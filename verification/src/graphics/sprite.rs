use crate::graphics::gpu_buffer::{quad_buffer_pass, stepped_index, stepped_indices, BufferLayout, BufferPass};
use vstd::prelude::*;

verus! {

/// An area of a texture atlas: its corner, its size and the atlas layer.
#[derive(Clone, Copy, Debug, PartialEq, Eq, Structural)]
pub struct Allocation {
    pub x: u32,
    pub y: u32,
    pub width: u32,
    pub height: u32,
    pub layer: usize,
}

impl Allocation {
    /// Corner and size.
    pub fn rect(&self) -> (r: (u32, u32, u32, u32))
        ensures
            r == (self.x, self.y, self.width, self.height),
    {
        (self.x, self.y, self.width, self.height)
    }

    /// Corner.
    pub fn position(&self) -> (r: (u32, u32))
        ensures
            r == (self.x, self.y),
    {
        (self.x, self.y)
    }

    /// Size.
    pub fn size(&self) -> (r: (u32, u32))
        ensures
            r == (self.width, self.height),
    {
        (self.width, self.height)
    }
}

/// One corner of a sprite quad. The position is kept in whole pixels; it is
/// turned into the shader's floating point position when the vertex is
/// written out.
#[derive(Clone, Copy, Debug)]
pub struct SpriteVertex {
    pub position: [i32; 3],
    pub tex_coord: [u16; 2],
    pub rg: [u32; 2],
    pub ba: [u16; 2],
    pub frames: [u16; 2],
    pub tex_hw: [u16; 2],
    pub time: u32,
    pub layer: i32,
}

impl Default for SpriteVertex {
    fn default() -> (r: Self)
        ensures
            r.position == [0i32, 0, 0],
            r.tex_coord == [0u16, 0],
            r.rg == [0u32, 0],
            r.ba == [0u16, 0],
            r.frames == [0u16, 0],
            r.tex_hw == [0u16, 0],
            r.time == 0,
            r.layer == 0,
    {
        SpriteVertex {
            position: [0, 0, 0],
            tex_coord: [0, 0],
            rg: [0, 0],
            ba: [0, 0],
            frames: [0, 0],
            tex_hw: [0, 0],
            time: 0,
            layer: 0,
        }
    }
}

impl BufferLayout for SpriteVertex {
    open spec fn spec_vertex_stride() -> nat {
        44
    }

    open spec fn spec_default_capacity() -> nat {
        10_000
    }

    fn index_offset() -> (r: usize) {
        6
    }

    fn index_stride() -> (r: usize) {
        4
    }

    fn vertex_stride() -> (r: usize) {
        44
    }

    fn with_capacity(capacity: usize) -> (r: BufferPass) {
        quad_buffer_pass(capacity, 44)
    }

    fn default_buffer() -> (r: BufferPass) {
        Self::with_capacity(10_000)
    }
}

/// `a + b` held to the `i32` range.
pub open spec fn sat_i32(v: int) -> i32 {
    if v > i32::MAX {
        i32::MAX
    } else if v < i32::MIN {
        i32::MIN
    } else {
        v as i32
    }
}

/// `v` held below the `u16` maximum.
pub open spec fn sat_u16(v: int) -> u16 {
    if v > u16::MAX {
        u16::MAX
    } else {
        v as u16
    }
}

/// `a + b`, or the nearest `i32` bound when the sum leaves the range.
pub fn saturating_add_i32(a: i32, b: i32) -> (r: i32)
    ensures
        r == sat_i32(a + b),
{
    if b > 0 && a > i32::MAX - b {
        i32::MAX
    } else if b < 0 && a < i32::MIN - b {
        i32::MIN
    } else {
        a + b
    }
}

/// The rendering data of a sprite: where and how large it is drawn, which
/// part of its atlas area it shows, its colour and animation, and the quad
/// built from them.
pub struct Sprite {
    pub pos: [i32; 3],
    pub hw: [u16; 2],
    pub uv: [u16; 4],
    pub color: [u32; 4],
    pub frames: u16,
    /// In milliseconds.
    pub switch_time: u32,
    pub animate: bool,
    /// The sprite's area in the texture atlas.
    pub texture: Option<Allocation>,
    /// The quad's four corners, once built.
    pub vertices: Vec<SpriteVertex>,
    /// Something changed since the quad was last built.
    pub changed: bool,
}

/// A sprite's state, its quad as a sequence.
pub struct SpriteView {
    pub pos: [i32; 3],
    pub hw: [u16; 2],
    pub uv: [u16; 4],
    pub color: [u32; 4],
    pub frames: u16,
    pub switch_time: u32,
    pub animate: bool,
    pub texture: Option<Allocation>,
    pub vertices: Seq<SpriteVertex>,
    pub changed: bool,
}

impl View for Sprite {
    type V = SpriteView;

    open spec fn view(&self) -> SpriteView {
        SpriteView {
            pos: self.pos,
            hw: self.hw,
            uv: self.uv,
            color: self.color,
            frames: self.frames,
            switch_time: self.switch_time,
            animate: self.animate,
            texture: self.texture,
            vertices: self.vertices@,
            changed: self.changed,
        }
    }
}

/// One corner of the quad of `s` in area `a`.
pub open spec fn sprite_vertex(s: SpriteView, a: Allocation, px: i32, py: i32, tu: u16, tv: u16) -> SpriteVertex {
    SpriteVertex {
        position: [px, py, s.pos[2]],
        tex_coord: [tu, tv],
        rg: [s.color[0], s.color[1]],
        ba: [s.color[2] as u16, s.color[3] as u16],
        frames: [s.frames, if s.animate { 1u16 } else { 0u16 }],
        tex_hw: [tex_width(s, a), tex_height(s, a)],
        time: s.switch_time,
        layer: a.layer as i32,
    }
}

/// The shown width: the asked one, at most the area's.
pub open spec fn tex_width(s: SpriteView, a: Allocation) -> u16 {
    if s.uv[2] <= a.width as u16 { s.uv[2] } else { a.width as u16 }
}

/// The shown height: the asked one, at most the area's.
pub open spec fn tex_height(s: SpriteView, a: Allocation) -> u16 {
    if s.uv[3] <= a.height as u16 { s.uv[3] } else { a.height as u16 }
}

/// The quad of `s` in area `a`: corners bottom left, bottom right, top right,
/// top left, spanning `hw` pixels from `pos`, showing the part of the area
/// at offset `uv` (held to `u16`) of the shown size.
pub open spec fn sprite_quad(s: SpriteView, a: Allocation) -> Seq<SpriteVertex> {
    let x = s.pos[0];
    let y = s.pos[1];
    let w = sat_i32(s.pos[0] + (s.hw[0] - 1));
    let h = sat_i32(s.pos[1] + (s.hw[1] - 1));
    let u1 = sat_u16(s.uv[0] + (a.x as u16));
    let v1 = sat_u16(s.uv[1] + (a.y as u16));
    let u2 = sat_u16(u1 + tex_width(s, a));
    let v2 = sat_u16(v1 + tex_height(s, a));
    seq![
        sprite_vertex(s, a, x, y, u1, v2),
        sprite_vertex(s, a, w, y, u2, v2),
        sprite_vertex(s, a, w, h, u2, v1),
        sprite_vertex(s, a, x, h, u1, v1),
    ]
}

/// The quad of a sprite: its corners run bottom left, bottom right, top
/// right, top left over `hw` pixels from `pos`; the texture points run from
/// the low corner `(u1, v1)` to the high one `(u2, v2)`, the bottom edge
/// showing the high v; every corner carries the sprite's colour, frame count,
/// switch time and atlas layer, and `frames[1]` is 1 exactly when the sprite
/// animates, 0 otherwise.
pub proof fn lemma_sprite_quad_shape(s: SpriteView, a: Allocation)
    requires
        sizes_set(s),
    ensures
        sprite_quad(s, a).len() == 4,
        forall|k: int|
            0 <= k < 4 ==> {
                let v = #[trigger] sprite_quad(s, a)[k];
                &&& v.frames[0] == s.frames
                &&& v.frames[1] <= 1
                &&& (v.frames[1] == 1) == s.animate
                &&& v.rg == [s.color[0], s.color[1]]
                &&& v.time == s.switch_time
                &&& v.layer == a.layer as i32
                &&& v.position[2] == s.pos[2]
                &&& v.position[0] == (if k == 0 || k == 3 { s.pos[0] } else { sat_i32(s.pos[0] + s.hw[0] - 1) })
                &&& v.position[1] == (if k == 0 || k == 1 { s.pos[1] } else { sat_i32(s.pos[1] + s.hw[1] - 1) })
                &&& v.position[0] >= s.pos[0]
                &&& v.position[1] >= s.pos[1]
            },
        sprite_quad(s, a)[0].tex_coord[0] <= sprite_quad(s, a)[1].tex_coord[0],
        sprite_quad(s, a)[2].tex_coord[1] <= sprite_quad(s, a)[1].tex_coord[1],
        sprite_quad(s, a)[0].tex_coord[1] == sprite_quad(s, a)[1].tex_coord[1],
        sprite_quad(s, a)[2].tex_coord[1] == sprite_quad(s, a)[3].tex_coord[1],
        sprite_quad(s, a)[1].tex_coord[0] == sprite_quad(s, a)[2].tex_coord[0],
        sprite_quad(s, a)[0].tex_coord[0] == sprite_quad(s, a)[3].tex_coord[0],
{
    assert forall|k: int| 0 <= k < 4 implies {
        let v = #[trigger] sprite_quad(s, a)[k];
        &&& v.frames[0] == s.frames
        &&& v.frames[1] <= 1
        &&& (v.frames[1] == 1) == s.animate
        &&& v.rg == [s.color[0], s.color[1]]
        &&& v.time == s.switch_time
        &&& v.layer == a.layer as i32
        &&& v.position[2] == s.pos[2]
        &&& v.position[0] == (if k == 0 || k == 3 { s.pos[0] } else { sat_i32(s.pos[0] + s.hw[0] - 1) })
        &&& v.position[1] == (if k == 0 || k == 1 { s.pos[1] } else { sat_i32(s.pos[1] + s.hw[1] - 1) })
        &&& v.position[0] >= s.pos[0]
        &&& v.position[1] >= s.pos[1]
    } by {
        if k == 0 {
        } else if k == 1 {
        } else if k == 2 {
        } else {
        }
    }
}

/// Building the quad: a sprite without an atlas area is left as it is.
pub open spec fn quad_built(s: SpriteView) -> SpriteView {
    match s.texture {
        Some(a) => SpriteView { vertices: sprite_quad(s, a), changed: false, ..s },
        None => s,
    }
}

/// Updating: the quad is built when something changed; the flag tells.
pub open spec fn sprite_updated(s: SpriteView) -> (SpriteView, bool) {
    if s.changed {
        (quad_built(s), true)
    } else {
        (s, false)
    }
}

/// A sprite can be built: building subtracts one from each size.
pub open spec fn sizes_set(s: SpriteView) -> bool {
    s.hw[0] >= 1 && s.hw[1] >= 1
}

/// Once a sprite with an atlas area is updated, a second update finds
/// nothing changed: it answers `false` and leaves the sprite as it is.
pub proof fn lemma_update_settles(s: SpriteView)
    requires
        s.texture.is_some(),
    ensures
        ({
            let (s1, _) = sprite_updated(s);
            let (s2, r2) = sprite_updated(s1);
            &&& !r2
            &&& s2 == s1
        }),
{
}

impl Default for Sprite {
    fn default() -> (r: Self)
        ensures
            r.pos == [0i32, 0, 0],
            r.hw == [0u16, 0],
            r.uv == [0u16, 0, 0, 0],
            r.color == [0u32, 0, 100, 100],
            r.frames == 0,
            r.switch_time == 0,
            !r.animate,
            r.texture.is_none(),
            r.vertices@ == Seq::<SpriteVertex>::empty(),
            r.changed,
    {
        Sprite {
            pos: [0, 0, 0],
            hw: [0, 0],
            uv: [0, 0, 0, 0],
            color: [0, 0, 100, 100],
            frames: 0,
            switch_time: 0,
            animate: false,
            texture: None,
            vertices: Vec::new(),
            changed: true,
        }
    }
}

impl Sprite {
    /// A sprite showing the atlas area `texture`, otherwise as the default.
    pub fn new(texture: Allocation) -> (r: Self)
        ensures
            r.pos == [0i32, 0, 0],
            r.hw == [0u16, 0],
            r.uv == [0u16, 0, 0, 0],
            r.color == [0u32, 0, 100, 100],
            r.frames == 0,
            r.switch_time == 0,
            !r.animate,
            r.texture == Some(texture),
            r.vertices@ == Seq::<SpriteVertex>::empty(),
            r.changed,
    {
        Sprite {
            pos: [0, 0, 0],
            hw: [0, 0],
            uv: [0, 0, 0, 0],
            color: [0, 0, 100, 100],
            frames: 0,
            switch_time: 0,
            animate: false,
            texture: Some(texture),
            vertices: Vec::new(),
            changed: true,
        }
    }

    /// Builds the quad from the sprite's state and clears `changed`; a
    /// sprite without an atlas area is left as it is.
    pub fn create_quad(&mut self)
        requires
            sizes_set(old(self)@),
        ensures
            final(self)@ == quad_built(old(self)@),
    {
        let x = self.pos[0];
        let y = self.pos[1];
        let w = saturating_add_i32(self.pos[0], (self.hw[0] - 1) as i32);
        let h = saturating_add_i32(self.pos[1], (self.hw[1] - 1) as i32);
        let allocation = match self.texture {
            Some(a) => a,
            None => return ,
        };
        let (au, av, aw, ah) = allocation.rect();
        let u = au as u16;
        let v = av as u16;
        let aw16 = aw as u16;
        let ah16 = ah as u16;
        let width = if self.uv[2] <= aw16 { self.uv[2] } else { aw16 };
        let height = if self.uv[3] <= ah16 { self.uv[3] } else { ah16 };
        let u1 = self.uv[0].saturating_add(u);
        let v1 = self.uv[1].saturating_add(v);
        let u2 = self.uv[0].saturating_add(u).saturating_add(width);
        let v2 = self.uv[1].saturating_add(v).saturating_add(height);
        let animate: u16 = if self.animate { 1 } else { 0 };
        let z = self.pos[2];
        let rg = [self.color[0], self.color[1]];
        let ba = [self.color[2] as u16, self.color[3] as u16];
        let frames = [self.frames, animate];
        let tex_hw = [width, height];
        let time = self.switch_time;
        let layer = allocation.layer as i32;
        let mut buffer: Vec<SpriteVertex> = Vec::new();
        buffer.push(SpriteVertex { position: [x, y, z], tex_coord: [u1, v2], rg, ba, frames, tex_hw, time, layer });
        buffer.push(SpriteVertex { position: [w, y, z], tex_coord: [u2, v2], rg, ba, frames, tex_hw, time, layer });
        buffer.push(SpriteVertex { position: [w, h, z], tex_coord: [u2, v1], rg, ba, frames, tex_hw, time, layer });
        buffer.push(SpriteVertex { position: [x, h, z], tex_coord: [u1, v1], rg, ba, frames, tex_hw, time, layer });
        self.vertices = buffer;
        self.changed = false;
        proof {
            assert(self.vertices@ =~= sprite_quad(old(self)@, allocation));
        }
    }

    /// Rebuilds the quad if something changed, and says whether it did.
    pub fn update(&mut self) -> (r: bool)
        requires
            old(self).changed ==> sizes_set(old(self)@),
        ensures
            (final(self)@, r) == sprite_updated(old(self)@),
    {
        if self.changed {
            self.create_quad();
            true
        } else {
            false
        }
    }
}

/// The sizes of the fixed sprite vertex buffer: the vertices written and the
/// indices drawn.
pub struct SpriteBuffer {
    pub vertex_count: u64,
    pub indice_count: u64,
}

/// Vertices the fixed sprite buffer holds, and bytes per vertex in it.
pub const SPRITE_BUFFER_VERTICES: u64 = 40_000;

pub const SPRITE_BUFFER_STRIDE: usize = 40;

impl SpriteBuffer {
    /// The sizes and the index list to upload: 10 000 steps of
    /// `stepped_index`, every index counted, no vertex written yet.
    pub fn new() -> (r: (SpriteBuffer, Vec<u32>))
        ensures
            r.0.vertex_count == 0,
            r.0.indice_count == 60_000,
            r.1@.len() == 60_000,
            forall|k: int| 0 <= k < 60_000 ==> r.1@[k] == stepped_index(k),
    {
        let indices = stepped_indices(10_000);
        let count = indices.len() as u64;
        (SpriteBuffer { vertex_count: 0, indice_count: count }, indices)
    }

    /// Takes vertex bytes, at 40 bytes per vertex, when their count stays
    /// below the buffer's 40 000; `true` says they are to be written, `false`
    /// that they were refused and nothing changed.
    pub fn set_buffer(&mut self, bytes: &[u8]) -> (write: bool)
        ensures
            write == (bytes@.len() / 40 < 40_000),
            write ==> final(self).vertex_count == bytes@.len() / 40,
            !write ==> final(self).vertex_count == old(self).vertex_count,
            final(self).indice_count == old(self).indice_count,
    {
        let count = bytes.len() / SPRITE_BUFFER_STRIDE;
        if count as u64 >= SPRITE_BUFFER_VERTICES {
            return false;
        }
        self.vertex_count = count as u64;
        true
    }

    /// Sets how many indices are drawn; the vertex buffer is fixed, so only
    /// the count changes.
    pub fn set_indice_count(&mut self, count: u64)
        ensures
            final(self).indice_count == count,
            final(self).vertex_count == old(self).vertex_count,
    {
        self.indice_count = count;
    }
}

} // verus!
