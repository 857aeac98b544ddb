//! Hides a text message in the least significant bits of an image's colour
//! channels and reads it back.
//!
//! The bit-level wire format lives in [`codec`]: the message bytes, most
//! significant bit first, followed by one all-zero terminator byte, written into
//! the red, green and blue channels of each pixel in raster order.
pub mod codec;
pub mod error;
pub mod format;
pub mod raster;
pub mod steganography;

pub use codec::calculate_capacity;
pub use error::ImgSteganoError;
pub use format::{is_lossy_format, lossy_format_warning, FileFormat};
pub use raster::Image;
pub use steganography::{
    decode_from_image, decode_from_u8_array, decode_text, encode_from_image, encode_from_u8_array,
    encode_text, ImgStegano,
};
