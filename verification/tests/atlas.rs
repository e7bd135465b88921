use ascending_demo::graphics::atlas::{Atlas, AtlasStep};
use ascending_demo::graphics::sprite::Allocation;

#[test]
fn upload_walks_the_layers() {
    let mut atlas = Atlas::new(256);
    assert_eq!(atlas.layers, 1);
    assert!(atlas.dirty);
    atlas.dirty = false;
    let a = "a".to_string();
    assert_eq!(atlas.start_upload(&a, 300, 10), AtlasStep::Refused);
    assert_eq!(atlas.start_upload(&a, 10, 10), AtlasStep::TryLayer(0));
    assert_eq!(atlas.layer_tried(a.clone(), 10, 10, 0, None), AtlasStep::TryNewLayer);
    assert_eq!(atlas.get(&a), None);
    let placed = atlas.new_layer_tried(a.clone(), 10, 10, Some((0, 0)));
    let expected = Allocation { x: 0, y: 0, width: 10, height: 10, layer: 1 };
    assert_eq!(placed, AtlasStep::Placed(expected));
    assert_eq!(atlas.layers, 2);
    assert!(atlas.dirty);
    assert_eq!(atlas.start_upload(&a, 10, 10), AtlasStep::Cached(expected));
    assert_eq!(atlas.get(&a), Some(expected));
}

#[test]
fn placing_on_an_existing_layer() {
    let mut atlas = Atlas::new(64);
    atlas.dirty = false;
    let b = "b".to_string();
    let placed = atlas.layer_tried(b.clone(), 5, 6, 0, Some((10, 20)));
    let expected = Allocation { x: 10, y: 20, width: 5, height: 6, layer: 0 };
    assert_eq!(placed, AtlasStep::Placed(expected));
    assert_eq!(atlas.layers, 1);
    assert!(!atlas.dirty);
    assert_eq!(atlas.get(&b), Some(expected));
    assert_eq!(atlas.get(&"c".to_string()), None);
}

#[test]
fn full_fresh_layer_refuses() {
    let mut atlas = Atlas::new(64);
    assert_eq!(atlas.new_layer_tried("x".to_string(), 1, 1, None), AtlasStep::Refused);
    assert_eq!(atlas.layers, 1);
}

#[test]
fn clear_forgets_names() {
    let mut atlas = Atlas::new(64);
    let b = "b".to_string();
    atlas.layer_tried(b.clone(), 5, 6, 0, Some((0, 0)));
    atlas.clear();
    assert_eq!(atlas.get(&b), None);
    assert_eq!(atlas.start_upload(&b, 5, 6), AtlasStep::TryLayer(0));
}
