//! The pixel grid that the codec works on, and its exchange with image files
//! through the image codec library.
use vstd::prelude::*;

use crate::codec::{capacity_of, calculate_capacity, carrier_count, embed, embed_payload};
use crate::error::ImgSteganoError;
use crate::format::{codec_format, FileFormat};

verus! {

/// A `width` x `height` grid of RGBA pixels, eight bits per channel, stored
/// row by row (y outer, x inner), four samples per pixel.
#[derive(Debug)]
pub struct Image {
    width: u32,
    height: u32,
    samples: Vec<u8>,
}

/// The pixels that the image codec decodes from `bytes`, format guessed from
/// the content: width, height and RGBA samples; `None` where it fails.
pub uninterp spec fn decoded_file(bytes: Seq<u8>) -> Option<(u32, u32, Seq<u8>)>;

/// As [`decoded_file`], with the file format given.
pub uninterp spec fn decoded_file_as(bytes: Seq<u8>, format: FileFormat) -> Option<(u32, u32, Seq<u8>)>;

/// The bytes that the image codec writes for an RGBA image in `format`;
/// `None` where it fails.
pub uninterp spec fn encoded_file(width: u32, height: u32, samples: Seq<u8>, format: FileFormat) -> Option<Seq<u8>>;

/// Relies on `image::load_from_memory` and `DynamicImage::to_rgba8`: decodes
/// the bytes (a function of them alone) and converts to RGBA; an
/// `ImageBuffer` holds at least `4 * width * height` samples.
#[verifier::external_body]
fn load_rgba(bytes: &[u8]) -> (r: Result<(u32, u32, Vec<u8>), image::ImageError>)
    ensures
        match r {
            Ok(t) => decoded_file(bytes@) == Some((t.0, t.1, t.2@)) && t.2@.len() >= 4 * t.0 * t.1,
            Err(_) => decoded_file(bytes@) is None,
        },
{
    let rgba = image::load_from_memory(bytes)?.to_rgba8();
    Ok((rgba.width(), rgba.height(), rgba.into_raw()))
}

/// Relies on `image::load_from_memory_with_format` and `DynamicImage::to_rgba8`,
/// as [`load_rgba`] with the format given.
#[verifier::external_body]
fn load_rgba_as(bytes: &[u8], format: FileFormat) -> (r: Result<(u32, u32, Vec<u8>), image::ImageError>)
    ensures
        match r {
            Ok(t) => decoded_file_as(bytes@, format) == Some((t.0, t.1, t.2@)) && t.2@.len() >= 4
                * t.0 * t.1,
            Err(_) => decoded_file_as(bytes@, format) is None,
        },
{
    let rgba = image::load_from_memory_with_format(bytes, codec_format(format))?.to_rgba8();
    Ok((rgba.width(), rgba.height(), rgba.into_raw()))
}

/// Relies on `ImageBuffer::from_raw`, which accepts a buffer of at least
/// `4 * width * height` samples, and `DynamicImage::write_to`, which encodes
/// the image in `format` into an in-memory buffer.
#[verifier::external_body]
fn write_rgba(width: u32, height: u32, samples: &Vec<u8>, format: FileFormat) -> (r: Result<Vec<u8>, image::ImageError>)
    requires
        samples@.len() == 4 * width * height,
    ensures
        match r {
            Ok(bytes) => encoded_file(width, height, samples@, format) == Some(bytes@),
            Err(_) => encoded_file(width, height, samples@, format) is None,
        },
{
    let buffer = image::RgbaImage::from_raw(width, height, samples.clone()).unwrap();
    let mut out: Vec<u8> = Vec::new();
    image::DynamicImage::ImageRgba8(buffer)
        .write_to(&mut std::io::Cursor::new(&mut out), codec_format(format))?;
    Ok(out)
}

/// The image that decoded pixels describe: the first `4 * width * height`
/// samples, row by row.
pub open spec fn image_of(pixels: (u32, u32, Seq<u8>)) -> (u32, u32, Seq<u8>) {
    (pixels.0, pixels.1, pixels.2.take(4 * pixels.0 * pixels.1))
}

impl Image {
    #[verifier::type_invariant]
    spec fn well_formed(&self) -> bool {
        self.samples@.len() == 4 * self.width * self.height
    }

    /// Width in pixels.
    pub closed spec fn spec_width(&self) -> u32 {
        self.width
    }

    /// Height in pixels.
    pub closed spec fn spec_height(&self) -> u32 {
        self.height
    }

    /// The RGBA samples, four per pixel, row by row.
    pub closed spec fn spec_samples(&self) -> Seq<u8> {
        self.samples@
    }

    /// Width, height and samples together.
    pub open spec fn parts(&self) -> (u32, u32, Seq<u8>) {
        (self.spec_width(), self.spec_height(), self.spec_samples())
    }

    /// The image of `width` x `height` pixels whose RGBA samples, row by row,
    /// are `samples`; `None` unless there are exactly four samples per pixel.
    pub fn from_rgba8(width: u32, height: u32, samples: Vec<u8>) -> (r: Option<Image>)
        ensures
            match r {
                Some(img) => img.parts() == (width, height, samples@),
                None => samples@.len() != 4 * width * height,
            },
    {
        assert(width as u128 * height as u128 <= 0xffff_ffff * 0xffff_ffff) by (nonlinear_arith)
            requires
                width <= 0xffff_ffff,
                height <= 0xffff_ffff,
        ;
        let needed: u128 = width as u128 * height as u128 * 4;
        assert(needed == 4 * width * height) by (nonlinear_arith)
            requires
                needed == width as u128 * height as u128 * 4,
        ;
        if samples.len() as u128 == needed {
            Some(Image { width, height, samples })
        } else {
            None
        }
    }

    /// Builds the image from decoded pixels, keeping the samples that its
    /// dimensions cover.
    fn from_decoded(width: u32, height: u32, samples: Vec<u8>) -> (r: Image)
        requires
            samples@.len() >= 4 * width * height,
        ensures
            r.parts() == image_of((width, height, samples@)),
    {
        let mut samples = samples;
        let len: usize = samples.len();
        assert(width as int * height as int * 4 <= samples@.len()) by (nonlinear_arith)
            requires
                samples@.len() >= 4 * width * height,
        ;
        assert(width as int * height as int <= samples@.len()) by (nonlinear_arith)
            requires
                width as int * height as int * 4 <= samples@.len(),
                width >= 0,
                height >= 0,
        ;
        let needed: usize = width as usize * height as usize * 4;
        samples.truncate(needed);
        assert(needed == 4 * width * height) by (nonlinear_arith)
            requires
                needed == width as int * height as int * 4,
        ;
        Image { width, height, samples }
    }

    /// Decodes an image file held in `buf`, in the given `format`.
    pub fn open_from_u8_array(buf: &[u8], format: FileFormat) -> (r: Result<Image, ImgSteganoError>)
        ensures
            match r {
                Ok(img) => decoded_file_as(buf@, format) is Some && img.parts() == image_of(
                    decoded_file_as(buf@, format).unwrap(),
                ),
                Err(e) => decoded_file_as(buf@, format) is None && e is ImageError,
            },
    {
        match load_rgba_as(buf, format) {
            Ok((w, h, samples)) => Ok(Image::from_decoded(w, h, samples)),
            Err(e) => Err(ImgSteganoError::ImageError(e)),
        }
    }

    /// Decodes an image file held in `buf`, guessing its format from the bytes.
    pub fn open_from_memory(buf: &[u8]) -> (r: Result<Image, ImgSteganoError>)
        ensures
            match r {
                Ok(img) => decoded_file(buf@) is Some && img.parts() == image_of(
                    decoded_file(buf@).unwrap(),
                ),
                Err(e) => decoded_file(buf@) is None && e is ImageError,
            },
    {
        match load_rgba(buf) {
            Ok((w, h, samples)) => Ok(Image::from_decoded(w, h, samples)),
            Err(e) => Err(ImgSteganoError::ImageError(e)),
        }
    }

    /// Encodes the image as a file in `format`, into memory.
    pub fn to_bytes(&self, format: FileFormat) -> (r: Result<Vec<u8>, ImgSteganoError>)
        ensures
            match r {
                Ok(bytes) => encoded_file(self.spec_width(), self.spec_height(), self.spec_samples(), format)
                    == Some(bytes@),
                Err(e) => encoded_file(self.spec_width(), self.spec_height(), self.spec_samples(), format)
                    is None && e is ImageError,
            },
    {
        proof {
            use_type_invariant(self);
        }
        match write_rgba(self.width, self.height, &self.samples, format) {
            Ok(bytes) => Ok(bytes),
            Err(e) => Err(ImgSteganoError::ImageError(e)),
        }
    }

    /// Maximum message capacity (in bytes) of this image.
    pub fn capacity(&self) -> (r: usize)
        ensures
            r as int == capacity_of(self.spec_width() as int, self.spec_height() as int),
            self.spec_samples().len() == 4 * self.spec_width() * self.spec_height(),
    {
        let len: usize = self.samples.len();
        proof {
            use_type_invariant(self);
            assert(capacity_of(self.width as int, self.height as int) <= self.samples@.len()) by (nonlinear_arith)
                requires
                    self.samples@.len() == 4 * self.width * self.height,
            ;
        }
        calculate_capacity(self.width, self.height)
    }

    /// Width and height in pixels.
    pub fn dimensions(&self) -> (r: (u32, u32))
        ensures
            r == (self.spec_width(), self.spec_height()),
            self.spec_samples().len() == 4 * self.spec_width() * self.spec_height(),
    {
        proof {
            use_type_invariant(self);
        }
        (self.width, self.height)
    }

    /// The RGBA samples, four per pixel, row by row.
    pub fn as_raw(&self) -> (r: &Vec<u8>)
        ensures
            r@ == self.spec_samples(),
    {
        &self.samples
    }

    /// A copy of this image: same dimensions, same samples.
    pub fn duplicate(&self) -> (r: Image)
        ensures
            r.parts() == self.parts(),
    {
        proof {
            use_type_invariant(self);
        }
        let samples = self.samples.clone();
        assert(samples@ =~= self.samples@);
        Image { width: self.width, height: self.height, samples }
    }

    /// A copy of this image with the bit stream of `payload` written into the
    /// least significant bits of its carrier channels.
    pub(crate) fn with_payload(&self, payload: &Vec<u8>) -> (r: Image)
        requires
            8 * payload@.len() <= carrier_count(self.spec_samples().len() as int),
        ensures
            r.spec_width() == self.spec_width(),
            r.spec_height() == self.spec_height(),
            r.spec_samples() == embed(self.spec_samples(), payload@),
    {
        proof {
            use_type_invariant(self);
        }
        let mut samples = self.duplicate().samples;
        embed_payload(&mut samples, payload);
        Image { width: self.width, height: self.height, samples }
    }
}

impl Clone for Image {
    fn clone(&self) -> (r: Image)
        ensures
            r.parts() == self.parts(),
    {
        self.duplicate()
    }
}

} // verus!
