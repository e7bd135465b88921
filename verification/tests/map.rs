use ascending_demo::graphics::map::{MapLayers, TileMap};

#[test]
fn layer_depths() {
    let depths: Vec<u32> = (0..10).map(MapLayers::indexed_layerz).collect();
    assert_eq!(depths, vec![8, 7, 6, 5, 4, 3, 2, 1, 1, 1]);
    assert_eq!(MapLayers::layerz(MapLayers::Ground), 8);
    assert_eq!(MapLayers::layerz(MapLayers::Anim1), 5);
    assert_eq!(MapLayers::layerz(MapLayers::Fringe2), 1);
    assert_eq!(MapLayers::layerz(MapLayers::Count), 1);
}

#[test]
fn new_map_is_zero() {
    let m = TileMap::new();
    assert_eq!(m.get_tile(0, 0), (0, 0, 0, 0));
    assert_eq!(m.get_tile(31, 255), (0, 0, 0, 0));
    assert!(m.img_changed);
    assert!(m.changed);
}

#[test]
fn tile_read_back() {
    let mut m = TileMap::new();
    m.img_changed = false;
    m.set_tile(3, 100, 7, 2, 9, 255);
    assert_eq!(m.get_tile(3, 100), (7, 2, 9, 255));
    assert_eq!(m.get_tile(4, 100), (0, 0, 0, 0));
    assert!(m.img_changed);
}

#[test]
fn tile_off_the_map_is_ignored() {
    let mut m = TileMap::new();
    m.img_changed = false;
    m.set_tile(32, 0, 7, 2, 9, 255);
    m.set_tile(0, 256, 7, 2, 9, 255);
    assert!(!m.img_changed);
    assert_eq!(m.get_tile(32, 0), (0, 0, 0, 0));
    assert_eq!(m.get_tile(0, 256), (0, 0, 0, 0));
}

#[test]
fn tile_data_layout() {
    let mut m = TileMap::new();
    m.set_tile(1, 2, 5, 6, 7, 8);
    let data = m.tile_data();
    assert!(data.len() >= 4 * 32 * 256);
    let i = 4 * (2 * 32 + 1);
    assert_eq!(&data[i..i + 4], &[5, 6, 7, 8]);
}

#[test]
fn quads_of_eight_layers() {
    let mut m = TileMap::new();
    m.pos = [100, -50];
    m.array_id = 3;
    m.create_quad();
    assert_eq!(m.vertices.len(), 32);
    assert_eq!(m.vertices[0].position, [100, -50, 8]);
    assert_eq!(m.vertices[1].position, [612, -50, 8]);
    assert_eq!(m.vertices[2].position, [612, 462, 8]);
    assert_eq!(m.vertices[3].position, [100, 462, 8]);
    assert_eq!(m.vertices[0].tex_coord, [0, 512]);
    assert_eq!(m.vertices[2].tex_coord, [512, 0]);
    assert_eq!(m.vertices[31].position, [100, 462, 1]);
    assert_eq!(m.vertices[5].layer, 3);
}

#[test]
fn update_uploads_and_builds_once() {
    let mut m = TileMap::new();
    let upload = m.update();
    let bytes = upload.expect("new tiles are uploaded");
    assert!(bytes.len() >= 4 * 4 * 32 * 256);
    assert_eq!(m.vertices.len(), 32);
    assert!(!m.img_changed);
    assert!(!m.changed);
    assert!(m.update().is_none());
    m.set_tile(0, 0, 1, 1, 1, 1);
    assert!(m.update().is_some());
}

#[test]
fn upload_bytes_are_the_tile_words() {
    let mut m = TileMap::new();
    m.set_tile(1, 0, 7, 8, 9, 10);
    let bytes = m.update().expect("tiles are uploaded");
    assert_eq!(bytes.len(), 4 * 4 * 32 * 256);
    let words: Vec<u32> = bytes.chunks(4).map(|c| u32::from_ne_bytes([c[0], c[1], c[2], c[3]])).collect();
    assert_eq!(words, m.tile_data());
    assert_eq!(&words[4..8], &[7, 8, 9, 10]);
}
