use image::{DynamicImage, ImageError, ImageFormat};
use vstd::prelude::*;

verus! {

#[verifier::external_type_specification]
#[verifier::external_body]
pub struct ExDynamicImage(DynamicImage);

#[verifier::external_type_specification]
#[verifier::external_body]
pub struct ExImageError(ImageError);

#[verifier::external_type_specification]
#[verifier::external_body]
pub struct ExImageFormat(ImageFormat);

/// What can go wrong while making a texture.
pub enum RendererError {
    /// The image could not be read.
    ImageError(ImageError),
}

/// Whether `image::load_from_memory` reads an image from these bytes (it
/// guesses the format from them).
pub uninterp spec fn image_decodes(data: Seq<u8>) -> bool;

/// The RGBA bytes of the image `image::load_from_memory` reads from these bytes.
pub uninterp spec fn decoded_rgba(data: Seq<u8>) -> Seq<u8>;

/// The width and height of the image `image::load_from_memory` reads from
/// these bytes.
pub uninterp spec fn decoded_size(data: Seq<u8>) -> (u32, u32);

/// Whether `image::load_from_memory_with_format` reads an image of `format`
/// from these bytes.
pub uninterp spec fn image_decodes_as(data: Seq<u8>, format: ImageFormat) -> bool;

/// The RGBA bytes of the image `image::load_from_memory_with_format` reads.
pub uninterp spec fn decoded_rgba_as(data: Seq<u8>, format: ImageFormat) -> Seq<u8>;

/// The width and height of the image `image::load_from_memory_with_format` reads.
pub uninterp spec fn decoded_size_as(data: Seq<u8>, format: ImageFormat) -> (u32, u32);

/// The pixels of an image as red, green, blue and alpha bytes, row by row
/// (`DynamicImage::into_rgba8` then `into_raw`).
pub uninterp spec fn image_rgba(image: DynamicImage) -> Seq<u8>;

/// The width and height of an image (`DynamicImage::width`, `height`).
pub uninterp spec fn image_size(image: DynamicImage) -> (u32, u32);

/// `image::load_from_memory`: the image in `data`, or why it could not be
/// read. The image read, and so its RGBA bytes and its size, depend on the
/// bytes alone.
#[verifier::external_body]
fn load_image(data: &[u8]) -> (r: Result<DynamicImage, ImageError>)
    ensures
        r.is_ok() == image_decodes(data@),
        r matches Ok(img) ==> image_rgba(img) == decoded_rgba(data@) && image_size(img) == decoded_size(
            data@,
        ),
{
    image::load_from_memory(data)
}

/// `image::load_from_memory_with_format`: the image in `data` read as
/// `format`, or why it could not be read. The outcome depends on the bytes and
/// the format alone.
#[verifier::external_body]
fn load_image_as(data: &[u8], format: ImageFormat) -> (r: Result<DynamicImage, ImageError>)
    ensures
        r.is_ok() == image_decodes_as(data@, format),
        r matches Ok(img) ==> image_rgba(img) == decoded_rgba_as(data@, format) && image_size(img)
            == decoded_size_as(data@, format),
{
    image::load_from_memory_with_format(data, format)
}

/// The image format that the extension of a file path names, if any
/// (`image::ImageFormat::from_path`, which reads the extension with
/// `ImageFormat::from_extension`).
pub uninterp spec fn path_format(path: Seq<char>) -> Option<ImageFormat>;

/// `image::ImageFormat::from_path`: the format the path's extension names,
/// or the error that says there is none.
#[verifier::external_body]
fn format_from_path(path: &str) -> (r: Result<ImageFormat, ImageError>)
    ensures
        r.is_ok() == path_format(path@).is_some(),
        r matches Ok(f) ==> path_format(path@) == Some(f),
{
    ImageFormat::from_path(std::path::Path::new(path))
}

/// `DynamicImage::width`, `height`, `into_rgba8` and `into_raw`: the image's
/// size and its pixels as red, green, blue and alpha bytes, row by row; an
/// image buffer holds at least four bytes per pixel.
#[verifier::external_body]
fn rgba_parts(image: DynamicImage) -> (r: (Vec<u8>, (u32, u32)))
    ensures
        r.0@ == image_rgba(image),
        r.1 == image_size(image),
        r.0@.len() >= 4 * r.1.0 * r.1.1,
{
    let size = (image.width(), image.height());
    (image.into_rgba8().into_raw(), size)
}

/// A named image as RGBA bytes, with its size.
#[derive(Debug)]
pub struct Texture {
    name: String,
    bytes: Vec<u8>,
    width: u32,
    height: u32,
}

/// A texture's name, bytes and size.
pub struct TextureView {
    pub name: Seq<char>,
    pub bytes: Seq<u8>,
    pub size: (u32, u32),
}

impl View for Texture {
    type V = TextureView;

    closed spec fn view(&self) -> TextureView {
        TextureView { name: self.name@, bytes: self.bytes@, size: (self.width, self.height) }
    }
}

/// A texture holds four bytes for each pixel of its size.
pub open spec fn holds_pixels(t: TextureView) -> bool {
    t.bytes.len() >= 4 * t.size.0 * t.size.1
}

impl Clone for Texture {
    fn clone(&self) -> (r: Self)
        ensures
            r@ == self@,
    {
        proof {
            use_type_invariant(self);
        }
        let bytes = self.bytes.clone();
        proof {
            assert forall|i: int| 0 <= i < bytes@.len() implies bytes@[i] == self.bytes@[i] by {
                assert(cloned::<u8>(self.bytes@[i], bytes@[i]));
            }
            assert(bytes@ =~= self.bytes@);
        }
        Texture { name: self.name.clone(), bytes, width: self.width, height: self.height }
    }
}

impl Texture {
    /// Every texture holds four bytes for each pixel of its size.
    #[verifier::type_invariant]
    spec fn pixels_held(self) -> bool {
        self.bytes@.len() >= 4 * self.width * self.height
    }

    pub fn bytes(&self) -> (r: &[u8])
        ensures
            r@ == self@.bytes,
            holds_pixels(self@),
    {
        proof {
            use_type_invariant(self);
        }
        self.bytes.as_slice()
    }

    pub fn name(&self) -> (r: &str)
        ensures
            r@ == self@.name,
    {
        self.name.as_str()
    }

    pub fn size(&self) -> (r: (u32, u32))
        ensures
            r == self@.size,
            holds_pixels(self@),
    {
        proof {
            use_type_invariant(self);
        }
        (self.width, self.height)
    }

    /// The texture of `image`, named `name`.
    pub fn from_image(name: String, image: DynamicImage) -> (r: Self)
        ensures
            r@.name == name@,
            r@.bytes == image_rgba(image),
            r@.size == image_size(image),
            holds_pixels(r@),
    {
        let (bytes, size) = rgba_parts(image);
        Texture { name, bytes, width: size.0, height: size.1 }
    }

    /// The texture of the image in `data`, named `name`; an error when the
    /// bytes hold no image that can be read.
    pub fn from_memory(name: String, data: &[u8]) -> (r: Result<Self, RendererError>)
        ensures
            r.is_ok() == image_decodes(data@),
            r matches Ok(t) ==> t@.name == name@ && t@.bytes == decoded_rgba(data@) && t@.size
                == decoded_size(data@) && holds_pixels(t@),
    {
        match load_image(data) {
            Ok(image) => Ok(Self::from_image(name, image)),
            Err(e) => Err(RendererError::ImageError(e)),
        }
    }

    /// The texture of an image file's contents `data`, read in the format
    /// that the extension of its `path` names, and named `name`: an error when
    /// the extension names no format, or when the bytes hold no image of it.
    pub fn from_file_data(name: String, path: &str, data: &[u8]) -> (r: Result<Self, RendererError>)
        ensures
            r.is_ok() == (path_format(path@) is Some && image_decodes_as(data@, path_format(path@)->0)),
            r matches Ok(t) ==> (t@.name == name@ && t@.bytes == decoded_rgba_as(data@, path_format(path@)->0)
                && t@.size == decoded_size_as(data@, path_format(path@)->0) && holds_pixels(t@)),
    {
        match format_from_path(path) {
            Ok(format) => Self::from_memory_with_format(name, data, format),
            Err(e) => Err(RendererError::ImageError(e)),
        }
    }

    /// The texture of the image in `data` read as `format`, named `name`; an
    /// error when the bytes hold no image of that format.
    pub fn from_memory_with_format(name: String, data: &[u8], format: ImageFormat) -> (r: Result<
        Self,
        RendererError,
    >)
        ensures
            r.is_ok() == image_decodes_as(data@, format),
            r matches Ok(t) ==> t@.name == name@ && t@.bytes == decoded_rgba_as(data@, format) && t@.size
                == decoded_size_as(data@, format) && holds_pixels(t@),
    {
        match load_image_as(data, format) {
            Ok(image) => Ok(Self::from_image(name, image)),
            Err(e) => Err(RendererError::ImageError(e)),
        }
    }
}

} // verus!
