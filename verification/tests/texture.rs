use ascending_demo::graphics::texture::{RendererError, Texture};
use image::{DynamicImage, ImageFormat, Rgba, RgbaImage};
use std::io::Cursor;

fn png_bytes() -> Vec<u8> {
    let mut img = RgbaImage::new(2, 3);
    img.put_pixel(1, 2, Rgba([1, 2, 3, 4]));
    let mut out = Cursor::new(Vec::new());
    DynamicImage::ImageRgba8(img).write_to(&mut out, ImageFormat::Png).unwrap();
    out.into_inner()
}

#[test]
fn from_image_keeps_name_size_and_pixels() {
    let mut img = RgbaImage::new(2, 3);
    img.put_pixel(1, 2, Rgba([1, 2, 3, 4]));
    let t = Texture::from_image("tree".to_string(), DynamicImage::ImageRgba8(img));
    assert_eq!(t.name(), "tree");
    assert_eq!(t.size(), (2, 3));
    assert_eq!(t.bytes().len(), 24);
    assert_eq!(&t.bytes()[20..24], &[1, 2, 3, 4]);
}

#[test]
fn from_image_converts_to_rgba() {
    let t = Texture::from_image("gray".to_string(), DynamicImage::new_luma8(4, 1));
    assert_eq!(t.size(), (4, 1));
    assert_eq!(t.bytes(), &[0, 0, 0, 255, 0, 0, 0, 255, 0, 0, 0, 255, 0, 0, 0, 255]);
}

#[test]
fn from_memory_reads_png() {
    let t = Texture::from_memory("mem".to_string(), &png_bytes()).ok().expect("a png reads");
    assert_eq!(t.name(), "mem");
    assert_eq!(t.size(), (2, 3));
    assert_eq!(&t.bytes()[20..24], &[1, 2, 3, 4]);
}

#[test]
fn from_memory_refuses_garbage() {
    let r = Texture::from_memory("bad".to_string(), &[1, 2, 3, 4, 5]);
    assert!(matches!(r, Err(RendererError::ImageError(_))));
}

#[test]
fn from_memory_with_format() {
    let t = Texture::from_memory_with_format("fmt".to_string(), &png_bytes(), ImageFormat::Png)
        .ok()
        .expect("a png reads as png");
    assert_eq!(t.size(), (2, 3));
    let r = Texture::from_memory_with_format("fmt".to_string(), &[0, 1, 2], ImageFormat::Png);
    assert!(r.is_err());
}


#[test]
fn from_memory_bytes_are_the_decoded_pixels() {
    let data = png_bytes();
    let t = Texture::from_memory("m".to_string(), &data).ok().expect("reads");
    let expected = image::load_from_memory(&data).unwrap().into_rgba8().into_raw();
    assert_eq!(t.bytes(), expected.as_slice());
}

#[test]
fn from_file_data_uses_the_extension() {
    let data = png_bytes();
    let t = Texture::from_file_data("tree.png".to_string(), "images/tree.png", &data).ok().expect("png reads");
    assert_eq!(t.size(), (2, 3));
    assert_eq!(t.name(), "tree.png");
    let expected = image::load_from_memory(&data).unwrap().into_rgba8().into_raw();
    assert_eq!(t.bytes(), expected.as_slice());
    assert!(Texture::from_file_data("a".to_string(), "images/a.PNG", &data).is_ok());
    assert!(matches!(
        Texture::from_file_data("a".to_string(), "images/a.nothing", &data),
        Err(RendererError::ImageError(_))
    ));
    assert!(Texture::from_file_data("a".to_string(), "images/a", &data).is_err());
    assert!(Texture::from_file_data("a".to_string(), "images/a.gif", &data).is_err());
}

#[test]
fn clone_keeps_everything() {
    let t = Texture::from_memory("m".to_string(), &png_bytes()).ok().expect("reads");
    let c = t.clone();
    assert_eq!(c.name(), t.name());
    assert_eq!(c.size(), t.size());
    assert_eq!(c.bytes(), t.bytes());
}
