//! Output codec and file name of a watermarked image.
use crate::text::{chars_equal, chars_of, lower_of, lowercase};
use vstd::prelude::*;

verus! {

/// How the composited image is encoded.
#[derive(Clone, Copy, Debug, PartialEq, Eq, Structural)]
pub enum Codec {
    /// Lossy JPEG at the given quality (1 to 100).
    Jpeg { quality: u8 },
    /// Lossless PNG.
    Png,
    /// Lossless WebP.
    WebpLossless,
}

pub open spec fn jpg_ext() -> Seq<char> {
    seq!['j', 'p', 'g']
}

pub open spec fn jpeg_ext() -> Seq<char> {
    seq!['j', 'p', 'e', 'g']
}

pub open spec fn png_ext() -> Seq<char> {
    seq!['p', 'n', 'g']
}

pub open spec fn webp_ext() -> Seq<char> {
    seq!['w', 'e', 'b', 'p']
}

pub open spec fn pdf_ext() -> Seq<char> {
    seq!['p', 'd', 'f']
}

/// Codec for an input whose extension is `ext` (compared as written).
pub open spec fn codec_spec(ext: Seq<char>, quality: u8) -> Codec {
    if ext == png_ext() {
        Codec::Png
    } else if ext == webp_ext() {
        Codec::WebpLossless
    } else {
        Codec::Jpeg { quality }
    }
}

/// Extensions of the files that a directory walk picks up, in lower case.
pub open spec fn is_listed_extension(lowered: Seq<char>) -> bool {
    lowered == jpg_ext() || lowered == jpeg_ext() || lowered == png_ext() || lowered == webp_ext()
        || lowered == pdf_ext()
}

/// Text put between an input's stem and its extension to name its output.
pub open spec fn suffix_text() -> Seq<char> {
    "_watermarked."@
}

/// Chooses the codec from the input's extension: PNG and WebP are kept
/// lossless, and everything else (JPEG included) is written as JPEG at the
/// given quality.
pub fn codec_for_extension(extension: &str, quality: u8) -> (r: Codec)
    ensures
        r == codec_spec(extension@, quality),
{
    let e: Vec<char> = chars_of(extension);
    if chars_equal(&e, &vec!['p', 'n', 'g']) {
        Codec::Png
    } else if chars_equal(&e, &vec!['w', 'e', 'b', 'p']) {
        Codec::WebpLossless
    } else {
        Codec::Jpeg { quality }
    }
}

/// Whether an extension already in lower case is one a directory walk picks up.
pub fn is_listed_lowercase(lowered: &str) -> (r: bool)
    ensures
        r == is_listed_extension(lowered@),
{
    let e: Vec<char> = chars_of(lowered);
    chars_equal(&e, &vec!['j', 'p', 'g']) || chars_equal(&e, &vec!['j', 'p', 'e', 'g'])
        || chars_equal(&e, &vec!['p', 'n', 'g']) || chars_equal(&e, &vec!['w', 'e', 'b', 'p'])
        || chars_equal(&e, &vec!['p', 'd', 'f'])
}

/// Whether a file with this extension is picked up by a directory walk,
/// whatever its case.
pub fn is_supported_extension(extension: &str) -> (r: bool)
    ensures
        r == is_listed_extension(lower_of(extension@)),
{
    let lowered: String = lowercase(extension);
    is_listed_lowercase(lowered.as_str())
}

/// Whether a lower-case extension names a PDF document.
pub fn is_pdf_lowercase(lowered: &str) -> (r: bool)
    ensures
        r == (lowered@ == pdf_ext()),
{
    let e: Vec<char> = chars_of(lowered);
    chars_equal(&e, &vec!['p', 'd', 'f'])
}

/// Whether an extension names a PDF document, whatever its case.
pub fn is_pdf_extension(extension: &str) -> (r: bool)
    ensures
        r == (lower_of(extension@) == pdf_ext()),
{
    let lowered: String = lowercase(extension);
    is_pdf_lowercase(lowered.as_str())
}

/// Name of the output file for an input with this stem and extension.
pub fn output_file_name(stem: &str, extension: &str) -> (r: String)
    ensures
        r@ == stem@ + suffix_text() + extension@,
{
    let mut name: String = stem.to_owned();
    name.append("_watermarked.");
    name.append(extension);
    name
}

} // verus!
