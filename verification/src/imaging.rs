//! Trusted boundary to the `image` crate: decode, resize, re-encode.
//!
//! The pipeline's contracts do not depend on the pixel content of a
//! derivative, only on which derivatives exist and where they are
//! stored. What the boundary does state is exactly what decides that:
//! whether the bytes decode — a function of the bytes alone, named by
//! `spec_decodes` — and for which target sizes the re-encode succeeds.

use vstd::prelude::*;
use crate::keys::Dim;

verus! {

#[verifier::external_type_specification]
#[verifier::external_body]
pub struct ExDynamicImage(image::DynamicImage);

/// Whether `image::load_from_memory` decodes these bytes. Decoding is a
/// function of the bytes alone, so the result carries a name; nothing
/// else is assumed of it.
pub uninterp spec fn spec_decodes(b: Seq<u8>) -> bool;

/// Whether the JPEG re-encode accepts a target size: both dimensions
/// must be non-zero and fit in sixteen bits.
pub open spec fn spec_encodable(d: Dim) -> bool {
    1 <= d.width <= 65535 && 1 <= d.height <= 65535
}

/// Relies on image::load_from_memory: decodes an image from raw bytes,
/// guessing the format; `None` exactly when the bytes do not decode.
#[verifier::external_body]
pub(crate) fn load_image(bytes: &Vec<u8>) -> (r: Option<image::DynamicImage>)
    ensures
        r is Some <==> spec_decodes(bytes@),
{
    image::load_from_memory(bytes.as_slice()).ok()
}

/// Relies on image::DynamicImage::resize_exact and
/// image::codecs::jpeg::JpegEncoder::encode_image: resizes to the exact
/// target dimensions with the fixed high-quality Lanczos3 filter, then
/// re-encodes as JPEG at the fixed quality setting. The resize yields
/// exactly the target dimensions for every source, and the encoder,
/// writing into a buffer, fails exactly when a dimension is zero or
/// above 65535 — so the result is `Some` exactly on encodable sizes.
#[verifier::external_body]
pub(crate) fn resize_and_encode(img: &image::DynamicImage, d: Dim) -> (r: Option<Vec<u8>>)
    ensures
        r is Some <==> spec_encodable(d),
{
    let resized = img.resize_exact(d.width, d.height, image::imageops::FilterType::Lanczos3);
    let mut buffer: Vec<u8> = Vec::new();
    let mut cursor = std::io::Cursor::new(&mut buffer);
    match image::codecs::jpeg::JpegEncoder::new_with_quality(&mut cursor, 80).encode_image(
        &resized,
    ) {
        Ok(()) => Some(buffer),
        Err(_) => None,
    }
}

/// Relies on uuid::Uuid::new_v4 and its Display form: a freshly drawn
/// random identifier, rendered hyphenated as 36 characters.
#[verifier::external_body]
pub(crate) fn fresh_id() -> (r: String)
    ensures
        r@.len() == 36,
{
    uuid::Uuid::new_v4().to_string()
}

/// Relies on chrono::Utc::now: the current time in milliseconds since the
/// Unix epoch. Nothing can be promised of the clock's value.
#[verifier::external_body]
pub(crate) fn now_timestamp_millis() -> (t: i64) {
    chrono::Utc::now().timestamp_millis()
}

} // verus!
