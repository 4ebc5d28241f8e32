//! The window icon, decoded from its image file.
use vstd::prelude::*;

verus! {

/// An image as rows of RGBA bytes.
#[derive(Debug)]
pub struct Icon {
    pub rgba: Vec<u8>,
    pub width: u32,
    pub height: u32,
}

/// What `image::load_from_memory` makes of some bytes, taken to RGBA:
/// the pixel bytes, the width and the height, or nothing where the bytes
/// are not an image it reads.
pub uninterp spec fn decoded_rgba(bytes: Seq<u8>) -> Option<(Seq<u8>, u32, u32)>;

/// Calls `image::load_from_memory`, then `DynamicImage::into_rgba8`,
/// `ImageBuffer::dimensions` and `ImageBuffer::into_raw`; the contract
/// names the result.
#[verifier::external_body]
fn decode_rgba(bytes: &[u8]) -> (r: Option<(Vec<u8>, u32, u32)>)
    ensures
        match r {
            Some(t) => decoded_rgba(bytes@) == Some((t.0@, t.1, t.2)),
            None => decoded_rgba(bytes@) is None,
        },
{
    match image::load_from_memory(bytes) {
        Ok(img) => {
            let img = img.into_rgba8();
            let (width, height) = img.dimensions();
            Some((img.into_raw(), width, height))
        },
        Err(_) => None,
    }
}

/// The icon in an image file's bytes; an empty icon where they are not an
/// image.
pub fn load_icon(bytes: &[u8]) -> (r: Icon)
    ensures
        match decoded_rgba(bytes@) {
            Some((rgba, w, h)) => r.rgba@ == rgba && r.width == w && r.height == h,
            None => r.rgba@.len() == 0 && r.width == 0 && r.height == 0,
        },
{
    match decode_rgba(bytes) {
        Some((rgba, width, height)) => Icon { rgba, width, height },
        None => Icon { rgba: Vec::new(), width: 0, height: 0 },
    }
}

} // verus!
