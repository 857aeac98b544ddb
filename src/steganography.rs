//! Encoding a text message into an image and decoding it back, on pixel grids
//! and on image files held in memory.
use vstd::prelude::*;
use vstd::slice::slice_to_vec;
use vstd::utf8::{
    decode_utf8, encode_utf8, encode_utf8_decode_utf8, encode_utf8_valid_utf8, valid_utf8,
};

use crate::codec::{
    capacity_of, carrier_count, decoded_bytes, encoded_samples, extract_message, framed,
    lemma_round_trip, samples_capacity,
};
use crate::error::ImgSteganoError;
use crate::format::{extension_format, FileFormat};
use crate::raster::{decoded_file, decoded_file_as, encoded_file, image_of, Image};

verus! {

/// The text that `String::from_utf8_lossy` makes of `bytes`.
pub uninterp spec fn lossy_text(bytes: Seq<u8>) -> Seq<char>;

/// Relies on `String::from_utf8`: it accepts exactly the byte vectors that are
/// valid UTF-8, and the string it returns holds those bytes.
#[verifier::external_body]
fn strict_text(bytes: Vec<u8>) -> (r: Option<String>)
    ensures
        match r {
            Some(s) => valid_utf8(bytes@) && s@ == decode_utf8(bytes@),
            None => !valid_utf8(bytes@),
        },
{
    String::from_utf8(bytes).ok()
}

/// Relies on `String::from_utf8_lossy`: each invalid sequence becomes U+FFFD,
/// and valid UTF-8 comes back as the same text.
#[verifier::external_body]
fn lossy_string(bytes: &Vec<u8>) -> (r: String)
    ensures
        r@ == lossy_text(bytes@),
        valid_utf8(bytes@) ==> r@ == decode_utf8(bytes@),
{
    String::from_utf8_lossy(bytes).into_owned()
}

/// What encoding `message` into the image `parts` (width, height, samples)
/// returns: `EmptyMessage` for an empty message, `MessageTooLarge` when its
/// UTF-8 bytes exceed the capacity, and otherwise an image of the same size
/// whose samples carry the framed message.
pub open spec fn encode_outcome(
    parts: (u32, u32, Seq<u8>),
    message: Seq<char>,
    r: Result<Image, ImgSteganoError>,
) -> bool {
    let bytes = encode_utf8(message);
    let capacity = capacity_of(parts.0 as int, parts.1 as int);
    match r {
        Ok(out) => {
            &&& message.len() > 0
            &&& bytes.len() <= capacity
            &&& out.parts() == (parts.0, parts.1, encoded_samples(parts.2, bytes))
        },
        Err(e) => if message.len() == 0 {
            e is EmptyMessage
        } else {
            &&& bytes.len() > capacity
            &&& e == (ImgSteganoError::MessageTooLarge {
                required: bytes.len() as usize,
                available: capacity as usize,
            })
        },
    }
}

/// What a strict decode returns for the recovered `bytes`: the text they
/// encode, or `InvalidUtf8` when they are not valid UTF-8.
pub open spec fn strict_outcome(bytes: Seq<u8>, r: Result<String, ImgSteganoError>) -> bool {
    match r {
        Ok(s) => valid_utf8(bytes) && s@ == decode_utf8(bytes),
        Err(e) => !valid_utf8(bytes) && e is InvalidUtf8,
    }
}

/// Encodes `message` into a copy of `image`; `image` itself is not changed.
/// The message is checked (non-empty, within capacity) before any pixel is
/// written.
pub fn encode_text(image: &Image, message: &str) -> (r: Result<Image, ImgSteganoError>)
    ensures
        encode_outcome(image.parts(), message@, r),
{
    if message.is_empty() {
        return Err(ImgSteganoError::EmptyMessage);
    }
    let (width, height) = image.dimensions();
    let capacity: usize = image.capacity();
    let bytes: &[u8] = message.as_bytes();
    if bytes.len() > capacity {
        return Err(ImgSteganoError::MessageTooLarge { required: bytes.len(), available: capacity });
    }
    let mut payload: Vec<u8> = slice_to_vec(bytes);
    payload.push(0u8);
    proof {
        let n = bytes@.len() as int;
        let pixels = width as int * height as int;
        assert(8 * (n + 1) <= carrier_count(4 * pixels)) by (nonlinear_arith)
            requires
                n <= capacity as int,
                capacity as int == (if (pixels * 3) / 8 >= 1 {
                    (pixels * 3) / 8 - 1
                } else {
                    0
                }),
                n >= 0,
                pixels >= 0,
                message@.len() > 0 ==> n > 0,
                message@.len() > 0,
        ;
        assert(payload@ =~= framed(bytes@));
        assert(image.spec_samples().len() == 4 * pixels) by (nonlinear_arith)
            requires
                image.spec_samples().len() == 4 * width * height,
                pixels == width as int * height as int,
        ;
    }
    Ok(image.with_payload(&payload))
}

/// Encodes `message` into `image` and returns the encoded image.
pub fn encode_from_image(image: Image, message: &str) -> (r: Result<Image, ImgSteganoError>)
    ensures
        encode_outcome(image.parts(), message@, r),
{
    encode_text(&image, message)
}

/// Decodes the message hidden in `image`; bytes that are not valid UTF-8 give
/// `InvalidUtf8`.
pub fn decode_from_image(image: &Image) -> (r: Result<String, ImgSteganoError>)
    ensures
        strict_outcome(decoded_bytes(image.spec_samples()), r),
{
    let bytes = extract_message(image.as_raw());
    match strict_text(bytes) {
        Some(s) => Ok(s),
        None => Err(ImgSteganoError::InvalidUtf8),
    }
}

/// Decodes the message hidden in `image`, replacing invalid UTF-8 with U+FFFD.
pub fn decode_text(image: &Image) -> (r: String)
    ensures
        r@ == lossy_text(decoded_bytes(image.spec_samples())),
        valid_utf8(decoded_bytes(image.spec_samples())) ==> r@ == decode_utf8(
            decoded_bytes(image.spec_samples()),
        ),
{
    let bytes = extract_message(image.as_raw());
    lossy_string(&bytes)
}

/// What writing the outcome `encoded` of an encode as a file in `format`
/// returns: the encode's error, or the bytes that the image codec writes (its
/// error where it cannot).
pub open spec fn write_outcome(
    encoded: Result<Image, ImgSteganoError>,
    format: FileFormat,
    r: Result<Vec<u8>, ImgSteganoError>,
) -> bool {
    match encoded {
        Ok(img) => match encoded_file(img.spec_width(), img.spec_height(), img.spec_samples(), format) {
            Some(bytes) => r is Ok && r->Ok_0@ == bytes,
            None => r is Err && r->Err_0 is ImageError,
        },
        Err(e) => r == Err::<Vec<u8>, ImgSteganoError>(e),
    }
}

/// Writes an encoded image as a file in `format`, or passes on the encode's
/// error.
fn write_encoded(encoded: Result<Image, ImgSteganoError>, format: FileFormat) -> (r: Result<
    Vec<u8>,
    ImgSteganoError,
>)
    ensures
        write_outcome(encoded, format, r),
{
    match encoded {
        Ok(img) => img.to_bytes(format),
        Err(e) => Err(e),
    }
}

/// Encodes `message` into the image file held in `input_image` and returns the
/// encoded image as a file in the format that `image_extension` names.
///
/// An unknown extension gives `InvalidImageFormat` before anything is decoded;
/// then come the image codec's decoding error, the encode's own errors, and the
/// codec's encoding error. A lossy target format is accepted:
/// [`crate::format::is_lossy_format`] tells a caller when to warn.
pub fn encode_from_u8_array(input_image: &[u8], image_extension: &str, message: &str) -> (r: Result<
    Vec<u8>,
    ImgSteganoError,
>)
    ensures
        match extension_format(image_extension@) {
            None => r is Err && r->Err_0 is InvalidImageFormat,
            Some(format) => match decoded_file(input_image@) {
                None => r is Err && r->Err_0 is ImageError,
                Some(pixels) => exists|encoded: Result<Image, ImgSteganoError>|
                    encode_outcome(image_of(pixels), message@, encoded) && write_outcome(
                        encoded,
                        format,
                        r,
                    ),
            },
        },
{
    let format = match FileFormat::from_extension(image_extension) {
        Some(f) => f,
        None => return Err(ImgSteganoError::InvalidImageFormat),
    };
    let image = match Image::open_from_memory(input_image) {
        Ok(img) => img,
        Err(e) => return Err(e),
    };
    let encoded = encode_from_image(image, message);
    write_encoded(encoded, format)
}

/// Decodes the message hidden in the image file held in `input_image`, format
/// guessed from its bytes.
pub fn decode_from_u8_array(input_image: &[u8]) -> (r: Result<String, ImgSteganoError>)
    ensures
        match decoded_file(input_image@) {
            None => r is Err && r->Err_0 is ImageError,
            Some(pixels) => strict_outcome(decoded_bytes(image_of(pixels).2), r),
        },
{
    match Image::open_from_memory(input_image) {
        Ok(image) => decode_from_image(&image),
        Err(e) => Err(e),
    }
}

/// Encoding and decoding on PNG files held in memory.
pub struct ImgStegano;

impl ImgStegano {
    /// Encodes `message` into the PNG file held in `input_image` and returns
    /// the result as a file in the format that `image_extension` names. The
    /// checks come in this order: decoding, the message, the extension,
    /// encoding.
    pub fn encode_from_u8_array(input_image: &[u8], image_extension: &str, message: &str) -> (r:
        Result<Vec<u8>, ImgSteganoError>)
        ensures
            match decoded_file_as(input_image@, FileFormat::Png) {
                None => r is Err && r->Err_0 is ImageError,
                Some(pixels) => exists|encoded: Result<Image, ImgSteganoError>|
                    encode_outcome(image_of(pixels), message@, encoded) && match encoded {
                        Err(e) => r == Err::<Vec<u8>, ImgSteganoError>(e),
                        Ok(_) => match extension_format(image_extension@) {
                            None => r is Err && r->Err_0 is InvalidImageFormat,
                            Some(format) => write_outcome(encoded, format, r),
                        },
                    },
            },
    {
        let image = match Image::open_from_u8_array(input_image, FileFormat::Png) {
            Ok(img) => img,
            Err(e) => return Err(e),
        };
        let encoded = match encode_text(&image, message) {
            Ok(img) => img,
            Err(e) => return Err(e),
        };
        let format = match FileFormat::from_extension(image_extension) {
            Some(f) => f,
            None => return Err(ImgSteganoError::InvalidImageFormat),
        };
        write_encoded(Ok(encoded), format)
    }

    /// Decodes the message hidden in the PNG file held in `input_image`,
    /// replacing invalid UTF-8 with U+FFFD.
    pub fn decode_from_u8_array(input_image: &[u8]) -> (r: Result<String, ImgSteganoError>)
        ensures
            match decoded_file_as(input_image@, FileFormat::Png) {
                None => r is Err && r->Err_0 is ImageError,
                Some(pixels) => r is Ok && r->Ok_0@ == lossy_text(decoded_bytes(image_of(pixels).2)),
            },
    {
        match Image::open_from_u8_array(input_image, FileFormat::Png) {
            Ok(image) => Ok(decode_text(&image)),
            Err(e) => Err(e),
        }
    }
}

/// Decoding an image that encoding produced gives back the message, for every
/// non-empty message whose UTF-8 bytes fit the image's capacity and hold no
/// zero byte: the encode succeeds and the strict decode of its result returns
/// exactly `message`.
pub proof fn lemma_text_round_trip(
    parts: (u32, u32, Seq<u8>),
    message: Seq<char>,
    encoded: Result<Image, ImgSteganoError>,
    decoded: Result<String, ImgSteganoError>,
)
    requires
        parts.2.len() == 4 * parts.0 * parts.1,
        message.len() > 0,
        encode_utf8(message).len() <= capacity_of(parts.0 as int, parts.1 as int),
        forall|i: int| 0 <= i < encode_utf8(message).len() ==> encode_utf8(message)[i] != 0,
        encode_outcome(parts, message, encoded),
        encoded is Ok ==> strict_outcome(decoded_bytes(encoded->Ok_0.spec_samples()), decoded),
    ensures
        encoded is Ok,
        decoded is Ok,
        decoded->Ok_0@ == message,
{
    let bytes = encode_utf8(message);
    assert(parts.2.len() as int / 4 == parts.0 as int * parts.1 as int) by (nonlinear_arith)
        requires
            parts.2.len() == 4 * parts.0 * parts.1,
    ;
    assert(bytes.len() <= samples_capacity(parts.2));
    lemma_round_trip(parts.2, bytes);
    encode_utf8_valid_utf8(message);
    encode_utf8_decode_utf8(message);
}

/// Encoding a second message over an image that already carries a first one,
/// then decoding, gives the second message, whichever of the two is longer.
pub proof fn lemma_text_overwrite(
    parts: (u32, u32, Seq<u8>),
    first: Seq<char>,
    second: Seq<char>,
    encoded_first: Result<Image, ImgSteganoError>,
    encoded_second: Result<Image, ImgSteganoError>,
    decoded: Result<String, ImgSteganoError>,
)
    requires
        parts.2.len() == 4 * parts.0 * parts.1,
        encode_outcome(parts, first, encoded_first),
        encoded_first is Ok,
        second.len() > 0,
        encode_utf8(second).len() <= capacity_of(parts.0 as int, parts.1 as int),
        forall|i: int| 0 <= i < encode_utf8(second).len() ==> encode_utf8(second)[i] != 0,
        encode_outcome(encoded_first->Ok_0.parts(), second, encoded_second),
        encoded_second is Ok ==> strict_outcome(
            decoded_bytes(encoded_second->Ok_0.spec_samples()),
            decoded,
        ),
    ensures
        encoded_second is Ok,
        decoded is Ok,
        decoded->Ok_0@ == second,
{
    let mid = encoded_first->Ok_0.parts();
    assert(mid.2.len() == parts.2.len());
    lemma_text_round_trip(mid, second, encoded_second, decoded);
}

/// At the capacity boundary: a message of exactly `capacity` bytes is encoded
/// (and by [`lemma_text_round_trip`] decodes back), and one of `capacity + 1`
/// bytes is refused with `MessageTooLarge { required: capacity + 1, available:
/// capacity }`.
pub proof fn lemma_capacity_boundary(
    parts: (u32, u32, Seq<u8>),
    message: Seq<char>,
    encoded: Result<Image, ImgSteganoError>,
)
    requires
        message.len() > 0,
        encode_outcome(parts, message, encoded),
    ensures
        encode_utf8(message).len() == capacity_of(parts.0 as int, parts.1 as int) ==> encoded is Ok,
        encode_utf8(message).len() == capacity_of(parts.0 as int, parts.1 as int) + 1 ==> encoded
            == Err::<Image, ImgSteganoError>(
            ImgSteganoError::MessageTooLarge {
                required: (capacity_of(parts.0 as int, parts.1 as int) + 1) as usize,
                available: capacity_of(parts.0 as int, parts.1 as int) as usize,
            },
        ),
{
}

/// Through a file: where the image codec writes the encoded image in `format`
/// and reads back exactly the pixels that it wrote (as a lossless format such
/// as PNG does), decoding the file
/// that [`encode_from_u8_array`] returned recovers the message, under the
/// conditions of [`lemma_text_round_trip`]. Nothing is claimed for a lossy
/// format, where that condition need not hold.
pub proof fn lemma_file_round_trip(
    pixels: (u32, u32, Seq<u8>),
    message: Seq<char>,
    format: FileFormat,
    encoded: Result<Image, ImgSteganoError>,
    written: Result<Vec<u8>, ImgSteganoError>,
    decoded: Result<String, ImgSteganoError>,
)
    requires
        pixels.2.len() == 4 * pixels.0 * pixels.1,
        message.len() > 0,
        encode_utf8(message).len() <= capacity_of(pixels.0 as int, pixels.1 as int),
        forall|i: int| 0 <= i < encode_utf8(message).len() ==> encode_utf8(message)[i] != 0,
        encode_outcome(pixels, message, encoded),
        write_outcome(encoded, format, written),
        written is Ok,
        decoded_file(written->Ok_0@) == Some(
            (pixels.0, pixels.1, encoded_samples(pixels.2, encode_utf8(message))),
        ),
        strict_outcome(decoded_bytes(image_of(decoded_file(written->Ok_0@).unwrap()).2), decoded),
    ensures
        decoded is Ok,
        decoded->Ok_0@ == message,
{
    let bytes = encode_utf8(message);
    let enc = encoded_samples(pixels.2, bytes);
    assert(enc.len() == pixels.2.len());
    assert(enc.take(4 * pixels.0 * pixels.1) =~= enc);
    assert(image_of(decoded_file(written->Ok_0@).unwrap()).2 == enc);
    assert(pixels.2.len() as int / 4 == pixels.0 as int * pixels.1 as int) by (nonlinear_arith)
        requires
            pixels.2.len() == 4 * pixels.0 * pixels.1,
    ;
    lemma_round_trip(pixels.2, bytes);
    encode_utf8_valid_utf8(message);
    encode_utf8_decode_utf8(message);
}

} // verus!
