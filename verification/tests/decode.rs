use macroquad::decode::ImageFormat;
use macroquad::texture::Image;

const RED_GREEN_PNG: [u8; 72] = [
    137, 80, 78, 71, 13, 10, 26, 10, 0, 0, 0, 13, 73, 72, 68, 82, 0, 0, 0, 2, 0, 0, 0, 1, 8, 6, 0, 0, 0, 244,
    34, 127, 138, 0, 0, 0, 15, 73, 68, 65, 84, 120, 156, 99, 248, 207, 192, 240, 31, 8, 27, 0, 16, 121, 3,
    126, 125, 99, 206, 215, 0, 0, 0, 0, 73, 69, 78, 68, 174, 66, 96, 130,
];

#[test]
fn decodes_png_with_format() {
    let img = Image::from_file_with_format(&RED_GREEN_PNG, Some(ImageFormat::Png));
    assert_eq!(img.width, 2);
    assert_eq!(img.height, 1);
    assert_eq!(img.bytes, vec![255, 0, 0, 255, 0, 255, 0, 128]);
}

#[test]
fn decodes_png_guessing_format() {
    let img = Image::from_file_with_format(&RED_GREEN_PNG, None);
    assert_eq!(img.get_pixel(0, 0), [255, 0, 0, 255]);
    assert_eq!(img.get_pixel(1, 0), [0, 255, 0, 128]);
}

#[test]
fn try_decode_reports_garbage() {
    match Image::try_from_file_with_format(&[1, 2, 3, 4, 5], None) {
        Ok(_) => panic!("garbage decoded"),
        Err(e) => assert!(!e.message.is_empty()),
    }
}

#[test]
fn try_decode_reports_wrong_format() {
    assert!(Image::try_from_file_with_format(&RED_GREEN_PNG, Some(ImageFormat::Tga)).is_err());
}

#[test]
fn try_decode_reports_unsupported_format() {
    assert!(Image::try_from_file_with_format(&RED_GREEN_PNG, Some(ImageFormat::Jpeg)).is_err());
}

#[test]
fn try_decode_accepts_png() {
    let img = Image::try_from_file_with_format(&RED_GREEN_PNG, Some(ImageFormat::Png)).unwrap();
    assert_eq!(img.bytes, vec![255, 0, 0, 255, 0, 255, 0, 128]);
}

#[test]
fn from_rgba8_parts_cuts_sizes_to_16_bits() {
    let img = Image::from_rgba8_parts(65536 + 3, 2, vec![1, 2]);
    assert_eq!(img.width, 3);
    assert_eq!(img.height, 2);
    assert_eq!(img.bytes, vec![1, 2]);
}

#[test]
fn decoded_image_holds_four_bytes_per_pixel() {
    let img = Image::from_file_with_format(&RED_GREEN_PNG, None);
    assert_eq!(img.bytes.len(), 4 * img.width as usize * img.height as usize);
}
