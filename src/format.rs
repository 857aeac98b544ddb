//! Raster formats that this library reads and writes, and the advisory on
//! lossy ones.
use vstd::prelude::*;

use crate::error::ImgSteganoError;

verus! {

/// A raster file format.
#[derive(Clone, Copy, Debug, PartialEq, Eq, Structural)]
pub enum FileFormat {
    Png,
    Jpeg,
    Gif,
    WebP,
    Tiff,
    Bmp,
    Avif,
}

/// Whether `ext` is the lower-case ASCII word `word`, up to ASCII case.
pub open spec fn same_ignoring_case(ext: Seq<char>, word: Seq<char>) -> bool {
    &&& ext.len() == word.len()
    &&& forall|i: int|
        0 <= i < ext.len() ==> ext[i] == word[i] || ('a' <= word[i] <= 'z' && ext[i] as u32 + 32
            == word[i] as u32)
}

/// The format that a file extension names, if it is one of [`FileFormat`]'s.
pub open spec fn extension_format(ext: Seq<char>) -> Option<FileFormat> {
    if same_ignoring_case(ext, seq!['p', 'n', 'g']) || same_ignoring_case(
        ext,
        seq!['a', 'p', 'n', 'g'],
    ) {
        Some(FileFormat::Png)
    } else if same_ignoring_case(ext, seq!['j', 'p', 'g']) || same_ignoring_case(
        ext,
        seq!['j', 'p', 'e', 'g'],
    ) || same_ignoring_case(ext, seq!['j', 'f', 'i', 'f']) {
        Some(FileFormat::Jpeg)
    } else if same_ignoring_case(ext, seq!['g', 'i', 'f']) {
        Some(FileFormat::Gif)
    } else if same_ignoring_case(ext, seq!['w', 'e', 'b', 'p']) {
        Some(FileFormat::WebP)
    } else if same_ignoring_case(ext, seq!['t', 'i', 'f']) || same_ignoring_case(
        ext,
        seq!['t', 'i', 'f', 'f'],
    ) {
        Some(FileFormat::Tiff)
    } else if same_ignoring_case(ext, seq!['b', 'm', 'p']) {
        Some(FileFormat::Bmp)
    } else if same_ignoring_case(ext, seq!['a', 'v', 'i', 'f']) {
        Some(FileFormat::Avif)
    } else {
        None
    }
}

/// Whether re-compressing in `format` may change pixel values, and with them
/// the hidden bits.
pub open spec fn lossy(format: FileFormat) -> bool {
    format == FileFormat::Jpeg || format == FileFormat::WebP || format == FileFormat::Avif
}

/// Relies on `image::ImageFormat::from_extension`: it lower-cases the ASCII
/// letters of `ext` and looks it up in a fixed table of extensions. Formats of
/// that table which [`FileFormat`] does not list come back as `None`.
#[verifier::external_body]
fn lookup_extension(ext: &str) -> (r: Option<FileFormat>)
    ensures
        r == extension_format(ext@),
{
    match image::ImageFormat::from_extension(ext) {
        Some(image::ImageFormat::Png) => Some(FileFormat::Png),
        Some(image::ImageFormat::Jpeg) => Some(FileFormat::Jpeg),
        Some(image::ImageFormat::Gif) => Some(FileFormat::Gif),
        Some(image::ImageFormat::WebP) => Some(FileFormat::WebP),
        Some(image::ImageFormat::Tiff) => Some(FileFormat::Tiff),
        Some(image::ImageFormat::Bmp) => Some(FileFormat::Bmp),
        Some(image::ImageFormat::Avif) => Some(FileFormat::Avif),
        _ => None,
    }
}

/// The image codec's own value for `format`, one variant for each.
#[verifier::external_body]
pub(crate) fn codec_format(format: FileFormat) -> image::ImageFormat {
    match format {
        FileFormat::Png => image::ImageFormat::Png,
        FileFormat::Jpeg => image::ImageFormat::Jpeg,
        FileFormat::Gif => image::ImageFormat::Gif,
        FileFormat::WebP => image::ImageFormat::WebP,
        FileFormat::Tiff => image::ImageFormat::Tiff,
        FileFormat::Bmp => image::ImageFormat::Bmp,
        FileFormat::Avif => image::ImageFormat::Avif,
    }
}

/// An opaque value of the image codec's format type.
#[verifier::external_type_specification]
#[verifier::external_body]
pub struct ExCodecFormat(image::ImageFormat);

impl FileFormat {
    /// The format that a file extension such as `"png"` or `"JPG"` names.
    pub fn from_extension(ext: &str) -> (r: Option<FileFormat>)
        ensures
            r == extension_format(ext@),
    {
        lookup_extension(ext)
    }
}

/// Whether `format` is lossy (JPEG, WebP, AVIF): hidden bits may not survive it.
pub fn is_lossy_format(format: FileFormat) -> (r: bool)
    ensures
        r == lossy(format),
{
    match format {
        FileFormat::Jpeg | FileFormat::WebP | FileFormat::Avif => true,
        _ => false,
    }
}

/// The advisory for writing to a file with extension `image_extension`:
/// `LossyFormatWarning` naming the extension when it names a lossy format,
/// `None` otherwise (unknown extensions included). It is advice; nothing fails.
pub fn lossy_format_warning(image_extension: &str) -> (r: Option<ImgSteganoError>)
    ensures
        match r {
            Some(w) => extension_format(image_extension@) is Some && lossy(
                extension_format(image_extension@).unwrap(),
            ) && w is LossyFormatWarning && w->LossyFormatWarning_format@ == image_extension@,
            None => extension_format(image_extension@) is None || !lossy(
                extension_format(image_extension@).unwrap(),
            ),
        },
{
    match FileFormat::from_extension(image_extension) {
        Some(format) => if is_lossy_format(format) {
            Some(ImgSteganoError::LossyFormatWarning { format: image_extension.to_owned() })
        } else {
            None
        },
        None => None,
    }
}

} // verus!
