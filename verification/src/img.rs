//! Album-art resizing through an outside image library: bytes in, PNG
//! bytes out. Reading and writing the files stays outside the library.

use vstd::prelude::*;

verus! {

use vstd::string::StringExecFns;

/// Why album art could not be resized.
#[derive(Clone, Debug)]
pub enum ResizeImageError {
    CantLoadImageFromMemory { text: String },
    CantLoadImageFromFile { text: String },
    CantSaveImageToFile { text: String },
}

impl ResizeImageError {
    /// A readable description of the failure.
    pub fn message(&self) -> (r: String)
        ensures
            self matches ResizeImageError::CantLoadImageFromMemory { text } ==> r@
                == "can't load image from memory: "@ + text@,
            self matches ResizeImageError::CantLoadImageFromFile { text } ==> r@
                == "can't load image from file: "@ + text@,
            self matches ResizeImageError::CantSaveImageToFile { text } ==> r@
                == "can't save image: "@ + text@,
    {
        let mut s = String::new();
        match self {
            ResizeImageError::CantLoadImageFromMemory { text } => {
                s.append("can't load image from memory: ");
                s.append(text.as_str());
            },
            ResizeImageError::CantLoadImageFromFile { text } => {
                s.append("can't load image from file: ");
                s.append(text.as_str());
            },
            ResizeImageError::CantSaveImageToFile { text } => {
                s.append("can't save image: ");
                s.append(text.as_str());
            },
        }
        s
    }
}

#[verifier::external_type_specification]
#[verifier::external_body]
pub struct ExDynamicImage(image::DynamicImage);

/// Relies on image::load_from_memory: decodes an image from its encoded
/// bytes, or reports why it cannot.
#[verifier::external_body]
fn load_image(data: &Vec<u8>) -> (r: Result<image::DynamicImage, String>)
{
    match image::load_from_memory(data.as_slice()) {
        Ok(img) => Ok(img),
        Err(e) => Err(e.to_string()),
    }
}

/// Relies on image's DynamicImage::resize_exact: scales to exactly the
/// given dimensions with a Gaussian filter.
#[verifier::external_body]
fn resize_exact_gaussian(img: &image::DynamicImage, width: u32, height: u32) -> (r:
    image::DynamicImage)
{
    img.resize_exact(width, height, image::imageops::FilterType::Gaussian)
}

/// Relies on image's DynamicImage::write_to with the PNG format: encodes
/// the image as PNG bytes, or reports why it cannot.
#[verifier::external_body]
fn encode_png(img: &image::DynamicImage) -> (r: Result<Vec<u8>, String>)
{
    let mut buf = std::io::Cursor::new(Vec::new());
    match img.write_to(&mut buf, image::ImageFormat::Png) {
        Ok(()) => Ok(buf.into_inner()),
        Err(e) => Err(e.to_string()),
    }
}

/// Decodes image bytes, scales them to exactly the given size, and
/// encodes the result as PNG bytes. Undecodable input fails as a memory
/// load; an encoder failure fails as a save.
pub fn resize_image(data: &Vec<u8>, width: u32, height: u32) -> (r: Result<
    Vec<u8>,
    ResizeImageError,
>)
    ensures
        r matches Err(e) ==> (e is CantLoadImageFromMemory || e is CantSaveImageToFile),
{
    let img = match load_image(data) {
        Ok(img) => img,
        Err(text) => {
            return Err(ResizeImageError::CantLoadImageFromMemory { text });
        },
    };
    let resized = resize_exact_gaussian(&img, width, height);
    match encode_png(&resized) {
        Ok(bytes) => Ok(bytes),
        Err(text) => Err(ResizeImageError::CantSaveImageToFile { text }),
    }
}

} // verus!
