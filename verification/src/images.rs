//! Decoding embedded images into RGBA pixels with the `image` crate.

use vstd::prelude::*;

verus! {

/// What `image::load_from_memory` followed by `to_rgba8` makes of a byte
/// buffer: the width, the height and the raw RGBA bytes (row by row, four
/// bytes a pixel), or `None` when the format is unknown or decoding fails.
pub uninterp spec fn decoded_rgba(bytes: Seq<u8>) -> Option<(u32, u32, Seq<u8>)>;

/// `image::load_from_memory` (format guessed from the bytes), the image
/// turned to 8-bit RGBA and taken apart into width, height and raw bytes.
#[verifier::external_body]
fn decode_rgba8(bytes: &[u8]) -> (r: Option<(u32, u32, Vec<u8>)>)
    ensures
        r matches Some(t) ==> decoded_rgba(bytes@) == Some((t.0, t.1, t.2@)),
        r is None ==> decoded_rgba(bytes@) is None,
{
    match image::load_from_memory(bytes) {
        Ok(img) => {
            let rgba = img.to_rgba8();
            Some((rgba.width(), rgba.height(), rgba.into_raw()))
        },
        Err(_) => None,
    }
}

/// A decoded image: `width * height` pixels of four bytes (red, green,
/// blue, alpha), row by row.
pub struct DecodedImage {
    pub width: usize,
    pub height: usize,
    pub rgba: Vec<u8>,
}

/// Decode an image file held in memory. `None` when it cannot be decoded,
/// or when its pixel buffer does not hold exactly four bytes per pixel.
pub fn decode_image(bytes: &[u8]) -> (img: Option<DecodedImage>)
    ensures
        img matches Some(d) ==> decoded_rgba(bytes@) == Some(
            (d.width as u32, d.height as u32, d.rgba@),
        ) && d.rgba@.len() == 4 * d.width * d.height,
        img is None ==> match decoded_rgba(bytes@) {
            Some(t) => t.2.len() != 4 * t.0 * t.1,
            None => true,
        },
{
    match decode_rgba8(bytes) {
        None => None,
        Some((w, h, pixels)) => {
            let wide: u128 = w as u128;
            let high: u128 = h as u128;
            assert(wide * high <= 0xffff_ffff_ffff_ffff_ffff_ffff_ffff_ffffu128) by (nonlinear_arith)
                requires
                    wide <= 0xffff_ffff,
                    high <= 0xffff_ffff,
            ;
            let area: u128 = wide * high;
            assert(4 * w * h == 4 * area) by (nonlinear_arith)
                requires
                    area == wide * high,
                    wide == w,
                    high == h,
            ;
            let n: usize = pixels.len();
            if area <= 0x3fff_ffff_ffff_ffff && 4 * area == n as u128 {
                Some(DecodedImage { width: w as usize, height: h as usize, rgba: pixels })
            } else {
                None
            }
        },
    }
}

} // verus!
