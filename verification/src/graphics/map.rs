use crate::graphics::bytes::{holds_u32s, u32_bytes};
use crate::graphics::gpu_buffer::{quad_buffer_pass, stepped_index, stepped_indices, BufferLayout, BufferPass};
use crate::graphics::sprite::{sat_i32, saturating_add_i32};
use image::{ImageBuffer, Rgba};
use vstd::prelude::*;

verus! {

/// The tiles of a map as an image of `u32` channels: tile id, layer, hue and
/// alpha per pixel, held as an `image::ImageBuffer`; what it holds is
/// `tile_pixels`, and its size `tile_image_size`.
#[verifier::external_body]
pub struct TileImage {
    buffer: ImageBuffer<Rgba<u32>, Vec<u32>>,
}

/// The pixels of a tile image, by column and row: tile id, layer, hue and
/// alpha.
pub uninterp spec fn tile_pixels(image: TileImage) -> Map<(u32, u32), (u32, u32, u32, u32)>;

/// The width and height a tile image was made with.
pub uninterp spec fn tile_image_size(image: TileImage) -> (u32, u32);

/// `ImageBuffer::new`: an image of the given size whose every pixel is zero.
#[verifier::external_body]
fn tile_image_new(width: u32, height: u32) -> (r: TileImage)
    requires
        4 * width * height <= usize::MAX,
    ensures
        tile_image_size(r) == (width, height),
        forall|p: (u32, u32)| #[trigger] tile_pixels(r).contains_key(p) <==> (p.0 < width && p.1 < height),
        forall|p: (u32, u32)| #[trigger] tile_pixels(r).contains_key(p) ==> tile_pixels(r)[p] == (0u32, 0u32, 0u32, 0u32),
{
    TileImage { buffer: ImageBuffer::new(width, height) }
}

/// `ImageBuffer::get_pixel_mut`, written through: the pixel at `(x, y)`
/// becomes `px`; no other pixel and not the size change.
#[verifier::external_body]
fn tile_image_put(image: &mut TileImage, x: u32, y: u32, px: (u32, u32, u32, u32))
    requires
        x < tile_image_size(*old(image)).0,
        y < tile_image_size(*old(image)).1,
    ensures
        tile_pixels(*final(image)) == tile_pixels(*old(image)).insert((x, y), px),
        tile_image_size(*final(image)) == tile_image_size(*old(image)),
{
    *image.buffer.get_pixel_mut(x, y) = Rgba([px.0, px.1, px.2, px.3]);
}

/// `ImageBuffer::get_pixel`: the pixel at `(x, y)`.
#[verifier::external_body]
fn tile_image_get(image: &TileImage, x: u32, y: u32) -> (r: (u32, u32, u32, u32))
    requires
        x < tile_image_size(*image).0,
        y < tile_image_size(*image).1,
    ensures
        r == tile_pixels(*image)[(x, y)],
{
    let Rgba(d) = *image.buffer.get_pixel(x, y);
    (d[0], d[1], d[2], d[3])
}

/// `ImageBuffer::as_raw`, copied: the channels of each pixel in a row, rows
/// one after another. A tile image is only made by `ImageBuffer::new`, which
/// allocates exactly four channels per pixel, and writing pixels keeps that.
#[verifier::external_body]
fn tile_image_raw(image: &TileImage) -> (r: Vec<u32>)
    ensures
        r@.len() == 4 * tile_image_size(*image).0 * tile_image_size(*image).1,
        forall|x: u32, y: u32|
            x < tile_image_size(*image).0 && y < tile_image_size(*image).1 ==> {
                let i = 4 * (y * tile_image_size(*image).0 + x);
                let px = #[trigger] tile_pixels(*image)[(x, y)];
                r@[i] == px.0 && r@[i + 1] == px.1 && r@[i + 2] == px.2 && r@[i + 3] == px.3
            },
{
    image.buffer.as_raw().clone()
}

/// The layers of a map, bottom to top.
#[derive(Clone, Copy, Debug, PartialEq, Eq, Structural)]
pub enum MapLayers {
    Ground,
    Mask,
    /// The depth spacer for bridges.
    Mask2,
    Anim1,
    Anim2,
    Anim3,
    /// Always above the player.
    Fringe,
    Fringe2,
    Count,
}

/// The depth of layer number `layer`: 8 for the ground down to 1 for the
/// last fringe and beyond.
pub open spec fn layer_depth(layer: u32) -> u32 {
    if layer < 7 {
        (8 - layer) as u32
    } else {
        1
    }
}

impl MapLayers {
    /// The number of the layer, counted from the ground.
    pub open spec fn number(self) -> u32 {
        match self {
            MapLayers::Ground => 0,
            MapLayers::Mask => 1,
            MapLayers::Mask2 => 2,
            MapLayers::Anim1 => 3,
            MapLayers::Anim2 => 4,
            MapLayers::Anim3 => 5,
            MapLayers::Fringe => 6,
            MapLayers::Fringe2 => 7,
            MapLayers::Count => 8,
        }
    }

    /// The depth of layer number `layer`.
    pub fn indexed_layerz(layer: u32) -> (r: u32)
        ensures
            r == layer_depth(layer),
    {
        match layer {
            0 => 8,
            1 => 7,
            2 => 6,
            3 => 5,
            4 => 4,
            5 => 3,
            6 => 2,
            _ => 1,
        }
    }

    /// The depth of `layer`.
    pub fn layerz(layer: MapLayers) -> (r: u32)
        ensures
            r == layer_depth(layer.number()),
    {
        match layer {
            MapLayers::Ground => 8,
            MapLayers::Mask => 7,
            MapLayers::Mask2 => 6,
            MapLayers::Anim1 => 5,
            MapLayers::Anim2 => 4,
            MapLayers::Anim3 => 3,
            MapLayers::Fringe => 2,
            MapLayers::Fringe2 | MapLayers::Count => 1,
        }
    }
}

/// One corner of a map layer quad, in whole pixels and depth; turned into
/// the shader's floating point position when written out.
#[derive(Clone, Copy, Debug)]
pub struct MapVertex {
    pub position: [i32; 3],
    pub tex_coord: [u16; 2],
    pub layer: i32,
}

impl Default for MapVertex {
    fn default() -> (r: Self)
        ensures
            r.position == [0i32, 0, 0],
            r.tex_coord == [0u16, 0],
            r.layer == 0,
    {
        MapVertex { position: [0, 0, 0], tex_coord: [0, 0], layer: 0 }
    }
}

impl BufferLayout for MapVertex {
    open spec fn spec_vertex_stride() -> nat {
        20
    }

    /// Enough for 90 maps with every layer.
    open spec fn spec_default_capacity() -> nat {
        720
    }

    fn index_offset() -> (r: usize) {
        6
    }

    fn index_stride() -> (r: usize) {
        4
    }

    fn vertex_stride() -> (r: usize) {
        20
    }

    fn with_capacity(capacity: usize) -> (r: BufferPass) {
        quad_buffer_pass(capacity, 20)
    }

    fn default_buffer() -> (r: BufferPass) {
        Self::with_capacity(720)
    }
}

/// Tiles per map row and rows per map.
pub const MAP_WIDTH: u32 = 32;

pub const MAP_HEIGHT: u32 = 256;

/// A map to draw: where it is, which map it shows, its tiles (id, layer,
/// hue, alpha per tile) and the quads of its eight layers.
pub struct TileMap {
    /// Order id, to find the map.
    pub id: u32,
    /// The map it shows.
    pub map_id: u32,
    /// Where it is drawn.
    pub pos: [i32; 2],
    pub image: TileImage,
    /// The map's texture in the shader's array.
    pub array_id: u32,
    /// The quads of its layers, once built.
    pub vertices: Vec<MapVertex>,
    /// The tiles changed since they were last uploaded.
    pub img_changed: bool,
    /// The position or array id changed since the quads were built.
    pub changed: bool,
}

/// A map's state, its tiles as a map from column and row.
pub struct MapView {
    pub id: u32,
    pub map_id: u32,
    pub pos: [i32; 2],
    pub tiles: Map<(u32, u32), (u32, u32, u32, u32)>,
    pub array_id: u32,
    pub vertices: Seq<MapVertex>,
    pub img_changed: bool,
    pub changed: bool,
}

impl View for TileMap {
    type V = MapView;

    open spec fn view(&self) -> MapView {
        MapView {
            id: self.id,
            map_id: self.map_id,
            pos: self.pos,
            tiles: tile_pixels(self.image),
            array_id: self.array_id,
            vertices: self.vertices@,
            img_changed: self.img_changed,
            changed: self.changed,
        }
    }
}

/// `(x, y)` is a tile of a map.
pub open spec fn on_map(x: u32, y: u32) -> bool {
    x < 32 && y < 256
}

/// The tiles of a map cover exactly its grid.
pub open spec fn tiles_cover(tiles: Map<(u32, u32), (u32, u32, u32, u32)>) -> bool {
    forall|p: (u32, u32)| #[trigger] tiles.contains_key(p) <==> on_map(p.0, p.1)
}

/// The tile at `(x, y)`, or zeros off the map.
pub open spec fn tile_at(tiles: Map<(u32, u32), (u32, u32, u32, u32)>, x: u32, y: u32) -> (u32, u32, u32, u32) {
    if on_map(x, y) {
        tiles[(x, y)]
    } else {
        (0, 0, 0, 0)
    }
}

/// The tiles after `(x, y)` was set to `px`; nothing changes off the map.
pub open spec fn tiles_set(
    tiles: Map<(u32, u32), (u32, u32, u32, u32)>,
    x: u32,
    y: u32,
    px: (u32, u32, u32, u32),
) -> Map<(u32, u32), (u32, u32, u32, u32)> {
    if on_map(x, y) {
        tiles.insert((x, y), px)
    } else {
        tiles
    }
}

/// Reading a tile gives back what was last written to it; writing one tile
/// leaves every other tile as it was, and a write off the map changes nothing.
pub proof fn lemma_tile_read_write(
    tiles: Map<(u32, u32), (u32, u32, u32, u32)>,
    x: u32,
    y: u32,
    px: (u32, u32, u32, u32),
    x2: u32,
    y2: u32,
)
    requires
        tiles_cover(tiles),
    ensures
        tiles_cover(tiles_set(tiles, x, y, px)),
        on_map(x, y) ==> tile_at(tiles_set(tiles, x, y, px), x, y) == px,
        (x2, y2) != (x, y) ==> tile_at(tiles_set(tiles, x, y, px), x2, y2) == tile_at(tiles, x2, y2),
        !on_map(x, y) ==> tiles_set(tiles, x, y, px) == tiles,
{
}

/// The tile data as the shader reads it: for each tile, row by row, its
/// id, layer, hue and alpha.
pub open spec fn tile_words(tiles: Map<(u32, u32), (u32, u32, u32, u32)>) -> Seq<u32> {
    Seq::new(
        4 * 32 * 256,
        |i: int|
            {
                let p = i / 4;
                let px = tiles[((p % 32) as u32, (p / 32) as u32)];
                let c = i % 4;
                if c == 0 {
                    px.0
                } else if c == 1 {
                    px.1
                } else if c == 2 {
                    px.2
                } else {
                    px.3
                }
            },
    )
}

/// Corner `c` (bottom left, bottom right, top right, top left) of layer
/// `i` of the quads of a map at `pos`, each layer 512 pixels square.
pub open spec fn map_corner(pos: [i32; 2], array_id: u32, i: int, c: int) -> MapVertex {
    let x = pos[0];
    let y = pos[1];
    let w = sat_i32(pos[0] + 512);
    let h = sat_i32(pos[1] + 512);
    let z = layer_depth(i as u32) as i32;
    let (px, py, tu, tv) = if c == 0 {
        (x, y, 0u16, 512u16)
    } else if c == 1 {
        (w, y, 512u16, 512u16)
    } else if c == 2 {
        (w, h, 512u16, 0u16)
    } else {
        (x, h, 0u16, 0u16)
    };
    MapVertex { position: [px, py, z], tex_coord: [tu, tv], layer: array_id as i32 }
}

/// The quads of the eight layers, four corners each.
pub open spec fn map_quads(pos: [i32; 2], array_id: u32) -> Seq<MapVertex> {
    Seq::new(32, |k: int| map_corner(pos, array_id, k / 4, k % 4))
}

/// Each layer quad shows the whole 512 by 512 tile texture: every corner's
/// texture point is 0 or 512 on each axis; a corner at the far x edge has
/// u = 512 and one at the near x edge u = 0; a corner at the near y edge has
/// v = 512 and one at the far y edge v = 0. The corners run bottom left,
/// bottom right, top right, top left; all sit at the layer's depth and name
/// the map's texture.
pub proof fn lemma_map_quads_cover_texture(pos: [i32; 2], array_id: u32)
    ensures
        map_quads(pos, array_id).len() == 32,
        forall|k: int|
            0 <= k < 32 ==> {
                let v = #[trigger] map_quads(pos, array_id)[k];
                let c = k % 4;
                &&& v.tex_coord[0] == (if c == 1 || c == 2 { 512u16 } else { 0u16 })
                &&& v.tex_coord[1] == (if c == 0 || c == 1 { 512u16 } else { 0u16 })
                &&& v.position[0] == (if v.tex_coord[0] == 512 { sat_i32(pos[0] + 512) } else { pos[0] })
                &&& v.position[1] == (if v.tex_coord[1] == 512 { pos[1] } else { sat_i32(pos[1] + 512) })
                &&& v.position[2] == layer_depth((k / 4) as u32) as i32
                &&& v.layer == array_id as i32
            },
{
}

/// Updating a map: the tiles, if they changed, are handed out to upload; the
/// quads are rebuilt if the position or array id changed.
pub open spec fn map_updated(m: MapView) -> MapView {
    MapView {
        img_changed: false,
        vertices: if m.changed { map_quads(m.pos, m.array_id) } else { m.vertices },
        changed: false,
        ..m
    }
}

/// Once a map is updated there is nothing left to do: a second update
/// uploads nothing and leaves the map as it is.
pub proof fn lemma_map_update_settles(m: MapView)
    ensures
        !map_updated(m).img_changed,
        !map_updated(m).changed,
        map_updated(map_updated(m)) == map_updated(m),
{
}

impl TileMap {
    /// The image's size is that of a map.
    pub open spec fn wf(&self) -> bool {
        &&& tile_image_size(self.image) == (32u32, 256u32)
        &&& tiles_cover(self@.tiles)
    }

    /// An empty map at the origin: every tile zero, everything to upload and build.
    pub fn new() -> (r: Self)
        ensures
            r.wf(),
            r.id == 0 && r.map_id == 0 && r.array_id == 0,
            r.pos == [0i32, 0],
            forall|p: (u32, u32)| #[trigger] r@.tiles.contains_key(p) ==> r@.tiles[p] == (0u32, 0u32, 0u32, 0u32),
            r.vertices@ == Seq::<MapVertex>::empty(),
            r.img_changed,
            r.changed,
    {
        let image = tile_image_new(32, 256);
        TileMap {
            id: 0,
            map_id: 0,
            pos: [0, 0],
            image,
            array_id: 0,
            vertices: Vec::new(),
            img_changed: true,
            changed: true,
        }
    }

    /// Builds the quads of the eight layers.
    pub fn create_quad(&mut self)
        ensures
            final(self)@ == (MapView { vertices: map_quads(old(self).pos, old(self).array_id), ..old(self)@ }),
            final(self).image == old(self).image,
    {
        let x = self.pos[0];
        let y = self.pos[1];
        let w = saturating_add_i32(self.pos[0], 512);
        let h = saturating_add_i32(self.pos[1], 512);
        let layer = self.array_id as i32;
        let mut buffer: Vec<MapVertex> = Vec::new();
        let mut i: u32 = 0;
        while i < 8
            invariant
                i <= 8,
                x == self.pos[0],
                y == self.pos[1],
                w == sat_i32(self.pos[0] + 512),
                h == sat_i32(self.pos[1] + 512),
                layer == self.array_id as i32,
                buffer@.len() == 4 * i,
                forall|k: int| 0 <= k < buffer@.len() ==> buffer@[k] == map_quads(self.pos, self.array_id)[k],
            decreases 8 - i,
        {
            let z = MapLayers::indexed_layerz(i) as i32;
            buffer.push(MapVertex { position: [x, y, z], tex_coord: [0, 512], layer });
            buffer.push(MapVertex { position: [w, y, z], tex_coord: [512, 512], layer });
            buffer.push(MapVertex { position: [w, h, z], tex_coord: [512, 0], layer });
            buffer.push(MapVertex { position: [x, h, z], tex_coord: [0, 0], layer });
            proof {
                assert forall|k: int| 4 * i <= k < 4 * i + 4 implies buffer@[k] == map_quads(self.pos, self.array_id)[k] by {
                    assert(k / 4 == i) by (nonlinear_arith)
                        requires
                            4 * i <= k < 4 * i + 4,
                    ;
                    assert(k % 4 == k - 4 * i) by (nonlinear_arith)
                        requires
                            4 * i <= k < 4 * i + 4,
                    ;
                }
            }
            i += 1;
        }
        self.vertices = buffer;
        proof {
            assert(self.vertices@ =~= map_quads(self.pos, self.array_id));
        }
    }

    /// Sets the tile at `(x, y)` to the id, layer, hue and alpha given, and
    /// marks the tiles for upload; a tile off the map is ignored.
    pub fn set_tile(&mut self, x: u32, y: u32, id: u32, layer: u32, hue: u32, alpha: u32)
        requires
            old(self).wf(),
        ensures
            final(self).wf(),
            on_map(x, y) ==> final(self)@ == (MapView {
                tiles: tiles_set(old(self)@.tiles, x, y, (id, layer, hue, alpha)),
                img_changed: true,
                ..old(self)@
            }),
            !on_map(x, y) ==> final(self)@ == old(self)@,
    {
        if x >= 32 || y >= 256 {
            return ;
        }
        tile_image_put(&mut self.image, x, y, (id, layer, hue, alpha));
        self.img_changed = true;
        proof {
            assert forall|p: (u32, u32)| #[trigger] self@.tiles.contains_key(p) <==> on_map(p.0, p.1) by {
                assert(old(self)@.tiles.contains_key(p) <==> on_map(p.0, p.1));
            }
        }
    }

    /// The id, layer, hue and alpha of the tile at `(x, y)`; zeros off the map.
    pub fn get_tile(&self, x: u32, y: u32) -> (r: (u32, u32, u32, u32))
        requires
            self.wf(),
        ensures
            r == tile_at(self@.tiles, x, y),
    {
        if x >= 32 || y >= 256 {
            return (0, 0, 0, 0);
        }
        tile_image_get(&self.image, x, y)
    }

    /// The tile data as the shader reads it: four `u32` channels per tile,
    /// row by row.
    pub fn tile_data(&self) -> (r: Vec<u32>)
        requires
            self.wf(),
        ensures
            r@ == tile_words(self@.tiles),
    {
        let r = tile_image_raw(&self.image);
        proof {
            assert forall|i: int| 0 <= i < 4 * 32 * 256 implies r@[i] == tile_words(self@.tiles)[i] by {
                let p = i / 4;
                let x = (p % 32) as u32;
                let y = (p / 32) as u32;
                assert(on_map(x, y));
                assert(i == 4 * (y * 32 + x) + i % 4);
                let px = self@.tiles[(x, y)];
            }
            assert(r@ =~= tile_words(self@.tiles));
        }
        r
    }

    /// Hands out the tile bytes to upload, if the tiles changed, and
    /// rebuilds the quads if the position or array id changed; both flags
    /// are then cleared.
    pub fn update(&mut self) -> (upload: Option<Vec<u8>>)
        requires
            old(self).wf(),
        ensures
            final(self).wf(),
            final(self)@ == map_updated(old(self)@),
            upload.is_some() == old(self).img_changed,
            upload matches Some(b) ==> b@.len() == 4 * 4 * 32 * 256 && holds_u32s(b@, tile_words(old(self)@.tiles)),
    {
        let mut upload: Option<Vec<u8>> = None;
        if self.img_changed {
            let data = self.tile_data();
            upload = Some(u32_bytes(data.as_slice()));
            self.img_changed = false;
        }
        if self.changed {
            self.create_quad();
            self.changed = false;
        }
        upload
    }
}

/// The sizes of the map vertex buffer: the vertices written and the indices
/// drawn.
pub struct MapBuffer {
    pub vertex_count: u64,
    pub indice_count: u64,
}

/// Vertices a map vertex buffer holds.
pub const MAP_BUFFER_VERTICES: u64 = 1_568;

impl MapBuffer {
    /// The sizes and the buffers to make: zeroed room for 1 568 vertices,
    /// the index list of `stepped_index`, and every index counted.
    pub fn new() -> (r: (MapBuffer, BufferPass, Vec<u32>))
        ensures
            r.0.vertex_count == 0,
            r.0.indice_count == 2352,
            r.1.vertices@ == Seq::new(1568 * 20, |i: int| 0u8),
            r.2@.len() == 2352,
            forall|k: int| 0 <= k < 2352 ==> r.2@[k] == stepped_index(k),
            r.1.indices@.len() == 4 * 2352,
            holds_u32s(r.1.indices@, r.2@),
    {
        let indices = stepped_indices(392);
        let zeroed = quad_buffer_pass(392, 20);
        let index_bytes = u32_bytes(indices.as_slice());
        let count = indices.len() as u64;
        (
            MapBuffer { vertex_count: 0, indice_count: count },
            BufferPass { vertices: zeroed.vertices, indices: index_bytes },
            indices,
        )
    }

    /// Takes vertex bytes, counted at six bytes per vertex and four vertices
    /// per tile, when their count stays below the buffer's 1 568; `true` says
    /// they are to be written, `false` that they were refused and nothing
    /// changed.
    pub fn set_buffer(&mut self, bytes: &[u8]) -> (write: bool)
        ensures
            write == ((bytes@.len() / 6) / 4 < 1568),
            write ==> final(self).vertex_count == (bytes@.len() / 6) / 4,
            final(self).indice_count == old(self).indice_count,
            !write ==> final(self).vertex_count == old(self).vertex_count,
    {
        let count = (bytes.len() / 6) / 4;
        if count as u64 >= MAP_BUFFER_VERTICES {
            return false;
        }
        self.vertex_count = count as u64;
        true
    }

    pub fn set_indice_count(&mut self, count: u64)
        ensures
            final(self).indice_count == count,
            final(self).vertex_count == old(self).vertex_count,
    {
        self.indice_count = count;
    }
}

} // verus!
