//! Format detection: classify raw bytes by their signature prefix.
//!
//! Only a bounded prefix of the input is inspected; the classification
//! never depends on bytes past the signature window.

use vstd::prelude::*;
use vstd::string::*;

verus! {

/// Number of leading bytes that decide the classification.
pub const SIGNATURE_WINDOW: usize = 8;

/// The content kinds the pipeline accepts, plus a rejection marker.
#[derive(Clone, Copy, PartialEq, Eq, Structural, Debug)]
pub enum ContentKind {
    Jpeg,
    Png,
    Gif,
    Unsupported,
}

/// A JPEG stream starts with the bytes FF D8 FF.
pub open spec fn is_jpeg_prefix(s: Seq<u8>) -> bool {
    &&& s.len() >= 3
    &&& s[0] == 0xffu8
    &&& s[1] == 0xd8u8
    &&& s[2] == 0xffu8
}

/// A PNG stream starts with the eight-byte signature 89 50 4E 47 0D 0A 1A 0A.
pub open spec fn is_png_prefix(s: Seq<u8>) -> bool {
    &&& s.len() >= 8
    &&& s[0] == 0x89u8
    &&& s[1] == 0x50u8
    &&& s[2] == 0x4eu8
    &&& s[3] == 0x47u8
    &&& s[4] == 0x0du8
    &&& s[5] == 0x0au8
    &&& s[6] == 0x1au8
    &&& s[7] == 0x0au8
}

/// A GIF stream starts with "GIF87a" or "GIF89a".
pub open spec fn is_gif_prefix(s: Seq<u8>) -> bool {
    &&& s.len() >= 6
    &&& s[0] == 0x47u8
    &&& s[1] == 0x49u8
    &&& s[2] == 0x46u8
    &&& s[3] == 0x38u8
    &&& (s[4] == 0x37u8 || s[4] == 0x39u8)
    &&& s[5] == 0x61u8
}

/// The classification of a byte stream: the first matching signature,
/// or `Unsupported` when no signature matches.
pub open spec fn spec_detect(s: Seq<u8>) -> ContentKind {
    if is_png_prefix(s) {
        ContentKind::Png
    } else if is_jpeg_prefix(s) {
        ContentKind::Jpeg
    } else if is_gif_prefix(s) {
        ContentKind::Gif
    } else {
        ContentKind::Unsupported
    }
}

/// Classify raw bytes by their signature prefix.
///
/// Returns the kind whose signature the input starts with, and
/// `Unsupported` for every input that matches no known signature.
pub fn detect(bytes: &[u8]) -> (kind: ContentKind)
    ensures
        kind == spec_detect(bytes@),
        (kind != ContentKind::Unsupported) == (is_png_prefix(bytes@) || is_jpeg_prefix(bytes@)
            || is_gif_prefix(bytes@)),
{
    if bytes.len() >= 8 && bytes[0] == 0x89 && bytes[1] == 0x50 && bytes[2] == 0x4e && bytes[3]
        == 0x47 && bytes[4] == 0x0d && bytes[5] == 0x0a && bytes[6] == 0x1a && bytes[7] == 0x0a {
        ContentKind::Png
    } else if bytes.len() >= 3 && bytes[0] == 0xff && bytes[1] == 0xd8 && bytes[2] == 0xff {
        ContentKind::Jpeg
    } else if bytes.len() >= 6 && bytes[0] == 0x47 && bytes[1] == 0x49 && bytes[2] == 0x46
        && bytes[3] == 0x38 && (bytes[4] == 0x37 || bytes[4] == 0x39) && bytes[5] == 0x61 {
        ContentKind::Gif
    } else {
        ContentKind::Unsupported
    }
}

/// The file extension used in the original's object-store key, per kind;
/// empty for rejected input.
pub open spec fn spec_extension(kind: ContentKind) -> Seq<char> {
    match kind {
        ContentKind::Jpeg => "jpg"@,
        ContentKind::Png => "png"@,
        ContentKind::Gif => "gif"@,
        ContentKind::Unsupported => Seq::<char>::empty(),
    }
}

/// The file extension for an accepted content kind.
pub fn extension(kind: ContentKind) -> (s: String)
    ensures
        s@ == spec_extension(kind),
{
    match kind {
        ContentKind::Jpeg => String::from_str("jpg"),
        ContentKind::Png => String::from_str("png"),
        ContentKind::Gif => String::from_str("gif"),
        ContentKind::Unsupported => String::new(),
    }
}

/// Detection depends only on the signature window: two inputs that agree
/// on their first eight bytes are classified alike, whatever follows.
pub proof fn lemma_detect_depends_only_on_prefix(a: Seq<u8>, b: Seq<u8>)
    requires
        a.len() >= SIGNATURE_WINDOW,
        b.len() >= SIGNATURE_WINDOW,
        a.subrange(0, SIGNATURE_WINDOW as int) == b.subrange(0, SIGNATURE_WINDOW as int),
    ensures
        spec_detect(a) == spec_detect(b),
{
    assert forall|i: int| 0 <= i < 8 implies a[i] == b[i] by {
        assert(a.subrange(0, 8)[i] == b.subrange(0, 8)[i]);
    }
}

} // verus!
