use image::{DynamicImage, RgbImage};
use img_stegano::{
    calculate_capacity, decode_from_image, decode_from_u8_array, decode_text, encode_from_image,
    encode_from_u8_array, encode_text, FileFormat, Image, ImgSteganoError,
};
use std::io::Cursor;

const SECRET_MESSAGE: &str = "The quick brown fox jumps over the lazy dog";

/// An RGBA image from RGB pixels, alpha fully opaque.
fn image_from_rgb(width: u32, height: u32, pixel: impl Fn(u32, u32) -> [u8; 3]) -> Image {
    let mut samples = Vec::with_capacity((width * height * 4) as usize);
    for y in 0..height {
        for x in 0..width {
            let [r, g, b] = pixel(x, y);
            samples.extend_from_slice(&[r, g, b, 255]);
        }
    }
    Image::from_rgba8(width, height, samples).expect("four samples per pixel")
}

/// A gradient test image with every least significant bit cleared.
fn create_test_image(width: u32, height: u32) -> Image {
    image_from_rgb(width, height, |x, y| {
        let r = ((x as f32 / width as f32) * 255.0) as u8 & 0xFE;
        let g = ((y as f32 / height as f32) * 255.0) as u8 & 0xFE;
        let b = ((x + y) as f32 / (width + height) as f32 * 255.0) as u8 & 0xFE;
        [r, g, b]
    })
}

/// A solid colour image with the least significant bits cleared.
fn create_solid_image(width: u32, height: u32, color: [u8; 3]) -> Image {
    let clean = [color[0] & 0xFE, color[1] & 0xFE, color[2] & 0xFE];
    image_from_rgb(width, height, |_, _| clean)
}

/// A checkerboard image with the least significant bits cleared.
fn create_checkerboard_image(width: u32, height: u32, square_size: u32) -> Image {
    image_from_rgb(width, height, |x, y| {
        if ((x / square_size) + (y / square_size)) % 2 == 0 {
            [254, 254, 254]
        } else {
            [0, 0, 0]
        }
    })
}


fn png_bytes(image: &Image) -> Vec<u8> {
    image.to_bytes(FileFormat::Png).expect("Failed to write PNG")
}

#[test]
fn it_works() {
    let image = create_test_image(100, 100);
    let encoded = encode_text(&image, "foo bar").expect("failed to encode");
    let saved = png_bytes(&encoded);
    let encoded = Image::open_from_u8_array(&saved, FileFormat::Png)
        .expect("Failed to open encoded png bytes");
    let decoded_text = decode_text(&encoded);
    assert_eq!(decoded_text, "foo bar".to_string());
}

#[test]
fn test_encode_and_decode_text() {
    let image = create_test_image(64, 48);
    let encoded = encode_text(&image, "foo bar").expect("failed to encode");
    let saved = png_bytes(&encoded);
    let encoded = Image::open_from_u8_array(&saved, FileFormat::Png)
        .expect("Failed to open encoded png bytes");
    let decoded_text = decode_text(&encoded);
    assert_eq!(decoded_text, "foo bar".to_string());
}

#[test]
fn test_encode_and_decode_from_image() {
    let image = create_test_image(100, 100);
    let encoded = encode_from_image(image, SECRET_MESSAGE).expect("Failed to encode message");
    let decoded_text = decode_from_image(&encoded).expect("Failed to decode message");
    assert_eq!(&decoded_text, SECRET_MESSAGE);
}

#[test]
fn test_encode_and_decode_with_save_reload() {
    let image = create_test_image(100, 100);
    let encoded = encode_from_image(image, SECRET_MESSAGE).expect("Failed to encode message");
    let saved = png_bytes(&encoded);
    let reloaded = Image::open_from_u8_array(&saved, FileFormat::Png).expect("Failed to reload");
    let decoded_text = decode_from_image(&reloaded).expect("Failed to decode message");
    assert_eq!(&decoded_text, SECRET_MESSAGE);
}

#[test]
fn test_steganography_test_encode_and_decode_from_u8_array() {
    let image = create_test_image(100, 100);
    let buffer = png_bytes(&image);
    let encoded = encode_from_u8_array(&buffer, "png", SECRET_MESSAGE)
        .expect("Failed to encode message to image");
    let decoded = decode_from_u8_array(&encoded).expect("Failed to decode image");
    assert_eq!(&decoded, SECRET_MESSAGE);
}

#[test]
fn test_empty_message_returns_error() {
    let image = create_test_image(50, 50);
    let result = encode_from_image(image, "");
    assert!(result.is_err());
    match result {
        Err(ImgSteganoError::EmptyMessage) => (),
        _ => panic!("Expected EmptyMessage error"),
    }
}

#[test]
fn test_single_character_message() {
    let image = create_test_image(50, 50);
    let message = "A";
    let encoded = encode_from_image(image, message).expect("Failed to encode message");
    let decoded = decode_from_image(&encoded).expect("Failed to decode message");
    assert_eq!(decoded, message);
}

#[test]
fn test_single_byte_message() {
    let image = create_test_image(50, 50);
    let message = "x";
    let encoded = encode_from_image(image, message).expect("Failed to encode message");
    let decoded = decode_from_image(&encoded).expect("Failed to decode message");
    assert_eq!(decoded, message);
}

#[test]
fn test_special_characters() {
    let image = create_test_image(80, 80);
    let message = "!@#$%^&*()_+-=[]{}|;':\",./<>?";
    let encoded = encode_from_image(image, message).expect("Failed to encode message");
    let decoded = decode_from_image(&encoded).expect("Failed to decode message");
    assert_eq!(decoded, message);
}

#[test]
fn test_unicode_characters() {
    let image = create_test_image(100, 100);
    let message = "Hello 世界 🌍 Привет مرحبا";
    let encoded = encode_from_image(image, message).expect("Failed to encode message");
    let decoded = decode_from_image(&encoded).expect("Failed to decode message");
    assert_eq!(decoded, message);
}

#[test]
fn test_emoji_message() {
    let image = create_test_image(50, 50);
    let message = "🔒🔓🎨⚡🌙";
    let encoded = encode_from_image(image, message).expect("Failed to encode message");
    let decoded = decode_from_image(&encoded).expect("Failed to decode message");
    assert_eq!(decoded, message);
}

#[test]
fn test_newlines_and_whitespace() {
    let image = create_test_image(80, 80);
    let message = "Line 1\nLine 2\n\tTabbed\r\nWindows line";
    let encoded = encode_from_image(image, message).expect("Failed to encode message");
    let decoded = decode_from_image(&encoded).expect("Failed to decode message");
    assert_eq!(decoded, message);
}

#[test]
fn test_message_too_large() {
    let image = create_test_image(50, 50);
    let (width, height) = image.dimensions();
    let capacity = calculate_capacity(width, height);
    let message = "A".repeat(capacity + 1);
    let result = encode_from_image(image, &message);
    assert!(result.is_err());
    match result {
        Err(ImgSteganoError::MessageTooLarge { required, available }) => {
            assert_eq!(required, capacity + 1);
            assert_eq!(available, capacity);
        }
        _ => panic!("Expected MessageTooLarge error"),
    }
}

#[test]
fn test_maximum_capacity_message() {
    let image = create_test_image(50, 50);
    let (width, height) = image.dimensions();
    let capacity = calculate_capacity(width, height);
    let message = "A".repeat(capacity);
    let encoded =
        encode_from_image(image, &message).expect("Failed to encode max capacity message");
    let decoded = decode_from_image(&encoded).expect("Failed to decode max capacity message");
    assert_eq!(decoded, message);
}

#[test]
fn test_near_capacity_message() {
    let image = create_test_image(50, 50);
    let (width, height) = image.dimensions();
    let capacity = calculate_capacity(width, height);
    let message = "B".repeat(capacity * 9 / 10);
    let encoded =
        encode_from_image(image, &message).expect("Failed to encode near-capacity message");
    let decoded = decode_from_image(&encoded).expect("Failed to decode near-capacity message");
    assert_eq!(decoded, message);
}

#[test]
fn test_invalid_image_format() {
    let buffer = vec![0u8; 100];
    let result = encode_from_u8_array(&buffer, "png", "test");
    assert!(result.is_err());
}

#[test]
fn test_unsupported_image_extension() {
    let img = RgbImage::new(50, 50);
    let dyn_img = DynamicImage::ImageRgb8(img);
    let mut buffer = Vec::new();
    dyn_img
        .write_to(&mut Cursor::new(&mut buffer), image::ImageFormat::Png)
        .unwrap();
    let result = encode_from_u8_array(&buffer, "xyz", "test");
    assert!(result.is_err());
    match result {
        Err(ImgSteganoError::InvalidImageFormat) => (),
        _ => panic!("Expected InvalidImageFormat error"),
    }
}

#[test]
fn test_decode_image_without_message() {
    let image = create_test_image(50, 50);
    let result = decode_from_image(&image);
    assert!(result.is_ok());
}

#[test]
fn test_decode_corrupted_message() {
    let image = create_test_image(80, 80);
    let message = "This message will be tested";
    let encoded = encode_from_image(image, message).expect("Failed to encode message");
    let saved = png_bytes(&encoded);
    let reloaded = Image::open_from_u8_array(&saved, FileFormat::Png).expect("Failed to reload");
    let result = decode_from_image(&reloaded);
    assert!(result.is_ok());
    assert_eq!(result.unwrap(), message);
}

#[test]
fn test_multiple_encode_decode_cycles() {
    let image = create_test_image(100, 100);
    let message1 = "First message";
    let encoded1 = encode_from_image(image, message1).expect("Failed to encode message 1");
    let decoded1 = decode_from_image(&encoded1).expect("Failed to decode message 1");
    assert_eq!(decoded1, message1);

    let message2 = "Second message is different";
    let encoded2 = encode_from_image(encoded1, message2).expect("Failed to encode message 2");
    let decoded2 = decode_from_image(&encoded2).expect("Failed to decode message 2");
    assert_eq!(decoded2, message2);
    assert_ne!(decoded2, message1);
}

#[test]
fn test_encode_same_message_twice() {
    let image = create_test_image(80, 80);
    let message = "Same message";
    let encoded1 = encode_from_image(image.clone(), message).expect("Failed to encode first time");
    let encoded2 = encode_from_image(image, message).expect("Failed to encode second time");
    let decoded1 = decode_from_image(&encoded1).expect("Failed to decode first");
    let decoded2 = decode_from_image(&encoded2).expect("Failed to decode second");
    assert_eq!(decoded1, decoded2);
    assert_eq!(decoded1, message);
}

#[test]
fn test_null_bytes_in_message() {
    let image = create_test_image(50, 50);
    let message = "Before\0After";
    let encoded = encode_from_image(image, message).expect("Failed to encode message with null");
    let decoded = decode_from_image(&encoded).expect("Failed to decode message with null");
    assert!(decoded.starts_with("Before"));
}

#[test]
fn test_all_printable_ascii() {
    let image = create_test_image(100, 100);
    let message: String = (32..=126).map(|c| c as u8 as char).collect();
    let encoded = encode_from_image(image, &message).expect("Failed to encode ASCII");
    let decoded = decode_from_image(&encoded).expect("Failed to decode ASCII");
    assert_eq!(decoded, message);
}

#[test]
fn test_jpeg_format_warning() {
    let image = create_test_image(50, 50);
    let buffer = png_bytes(&image);
    let result = encode_from_u8_array(&buffer, "jpg", "test message");
    assert!(result.is_ok());
}

#[test]
fn test_capacity_calculation() {
    let image = create_test_image(80, 80);
    let (width, height) = image.dimensions();
    let capacity = calculate_capacity(width, height);
    let expected = ((width as usize * height as usize * 3) / 8).saturating_sub(1);
    assert_eq!(capacity, expected);
    let message = "X".repeat(capacity);
    let result = encode_from_image(image, &message);
    assert!(result.is_ok());
}

#[test]
fn test_capacity_with_small_image() {
    let small_img = create_solid_image(1, 1, [0, 0, 0]);
    let capacity = calculate_capacity(1, 1);
    assert_eq!(capacity, 0);
    let result = encode_from_image(small_img, "A");
    assert!(result.is_err());
}

#[test]
fn test_capacity_with_medium_image() {
    let img = create_solid_image(10, 10, [0, 0, 0]);
    let capacity = calculate_capacity(10, 10);
    assert_eq!(capacity, 36);
    let message = "A".repeat(36);
    let result = encode_from_image(img, &message);
    assert!(result.is_ok());
}

#[test]
fn test_encode_decode_with_solid_color() {
    let image = create_solid_image(60, 60, [128, 128, 128]);
    let message = "Solid color test";
    let encoded = encode_from_image(image, message).expect("Failed to encode");
    let decoded = decode_from_image(&encoded).expect("Failed to decode");
    assert_eq!(decoded, message);
}

#[test]
fn test_encode_decode_with_checkerboard() {
    let image = create_checkerboard_image(80, 80, 8);
    let message = "Checkerboard pattern test";
    let encoded = encode_from_image(image, message).expect("Failed to encode");
    let decoded = decode_from_image(&encoded).expect("Failed to decode");
    assert_eq!(decoded, message);
}

#[test]
fn test_encode_decode_with_black_image() {
    let image = create_solid_image(50, 50, [0, 0, 0]);
    let message = "Black image";
    let encoded = encode_from_image(image, message).expect("Failed to encode");
    let decoded = decode_from_image(&encoded).expect("Failed to decode");
    assert_eq!(decoded, message);
}

#[test]
fn test_encode_decode_with_white_image() {
    let image = create_solid_image(50, 50, [255, 255, 255]);
    let message = "White image";
    let encoded = encode_from_image(image, message).expect("Failed to encode");
    let decoded = decode_from_image(&encoded).expect("Failed to decode");
    assert_eq!(decoded, message);
}

#[test]
fn test_different_image_sizes() {
    let sizes = vec![(10, 10), (50, 30), (100, 50), (200, 100)];
    for (width, height) in sizes {
        let image = create_test_image(width, height);
        let message = format!("Testing {}x{}", width, height);
        let encoded = encode_from_image(image, &message)
            .unwrap_or_else(|_| panic!("Failed to encode {}x{}", width, height));
        let decoded = decode_from_image(&encoded)
            .unwrap_or_else(|_| panic!("Failed to decode {}x{}", width, height));
        assert_eq!(decoded, message);
    }
}
