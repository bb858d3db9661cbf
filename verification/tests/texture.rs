use macroquad::texture::{Image, PixelRect};

fn counting_image(width: u16, height: u16) -> Image {
    let n = width as usize * height as usize * 4;
    Image { bytes: (0..n).map(|i| (i % 251) as u8).collect(), width, height }
}

#[test]
fn empty_image() {
    let img = Image::empty();
    assert_eq!(img.width, 0);
    assert_eq!(img.height, 0);
    assert!(img.bytes.is_empty());
    assert_eq!(img.width(), 0);
    assert_eq!(img.height(), 0);
}

#[test]
fn gen_image_color_fills_every_pixel() {
    let img = Image::gen_image_color(3, 2, [10, 20, 30, 40]);
    assert_eq!(img.width(), 3);
    assert_eq!(img.height(), 2);
    assert_eq!(img.bytes.len(), 24);
    for y in 0..2 {
        for x in 0..3 {
            assert_eq!(img.get_pixel(x, y), [10, 20, 30, 40]);
        }
    }
}

#[test]
fn gen_image_color_of_no_pixels_is_empty() {
    assert!(Image::gen_image_color(0, 5, [1, 2, 3, 4]).bytes.is_empty());
    assert!(Image::gen_image_color(7, 0, [1, 2, 3, 4]).bytes.is_empty());
}

#[test]
fn gen_image_color_single_pixel() {
    assert_eq!(Image::gen_image_color(1, 1, [9, 8, 7, 6]).bytes, vec![9, 8, 7, 6]);
}

#[test]
fn set_then_get_pixel() {
    let mut img = Image::gen_image_color(4, 3, [0, 0, 0, 255]);
    img.set_pixel(2, 1, [1, 2, 3, 4]);
    assert_eq!(img.get_pixel(2, 1), [1, 2, 3, 4]);
    assert_eq!(&img.bytes[(1 * 4 + 2) * 4..(1 * 4 + 2) * 4 + 4], &[1, 2, 3, 4]);
    for y in 0..3 {
        for x in 0..4 {
            if (x, y) != (2, 1) {
                assert_eq!(img.get_pixel(x, y), [0, 0, 0, 255]);
            }
        }
    }
    assert_eq!(img.width, 4);
    assert_eq!(img.height, 3);
}

#[test]
fn get_pixel_reads_row_major() {
    let img = counting_image(3, 2);
    assert_eq!(img.get_pixel(0, 0), [0, 1, 2, 3]);
    assert_eq!(img.get_pixel(2, 0), [8, 9, 10, 11]);
    assert_eq!(img.get_pixel(1, 1), [16, 17, 18, 19]);
}

#[test]
fn update_writes_colors_in_order() {
    let mut img = Image::gen_image_color(2, 2, [0, 0, 0, 0]);
    let colors = [[1, 1, 1, 1], [2, 2, 2, 2], [3, 3, 3, 3], [4, 4, 4, 4]];
    img.update(&colors);
    assert_eq!(img.get_pixel(0, 0), [1, 1, 1, 1]);
    assert_eq!(img.get_pixel(1, 0), [2, 2, 2, 2]);
    assert_eq!(img.get_pixel(0, 1), [3, 3, 3, 3]);
    assert_eq!(img.get_pixel(1, 1), [4, 4, 4, 4]);
    assert_eq!(img.bytes.len(), 16);
}

#[test]
fn update_resizes_a_short_buffer() {
    let mut img = Image { bytes: vec![], width: 1, height: 2 };
    img.update(&[[5, 6, 7, 8], [9, 10, 11, 12]]);
    assert_eq!(img.bytes, vec![5, 6, 7, 8, 9, 10, 11, 12]);
}

#[test]
fn update_shrinks_a_long_buffer() {
    let mut img = Image { bytes: vec![1; 40], width: 1, height: 1 };
    img.update(&[[5, 6, 7, 8]]);
    assert_eq!(img.bytes, vec![5, 6, 7, 8]);
}

#[test]
fn get_image_data_splits_pixels() {
    let img = counting_image(2, 1);
    assert_eq!(img.get_image_data(), vec![[0, 1, 2, 3], [4, 5, 6, 7]]);
}

#[test]
fn sub_image_copies_the_rectangle() {
    let img = counting_image(4, 3);
    let sub = img.sub_image(PixelRect { x: 1, y: 1, w: 2, h: 2 });
    assert_eq!(sub.width, 2);
    assert_eq!(sub.height, 2);
    assert_eq!(sub.get_pixel(0, 0), img.get_pixel(1, 1));
    assert_eq!(sub.get_pixel(1, 0), img.get_pixel(2, 1));
    assert_eq!(sub.get_pixel(0, 1), img.get_pixel(1, 2));
    assert_eq!(sub.get_pixel(1, 1), img.get_pixel(2, 2));
    assert_eq!(sub.bytes.len(), 16);
}

#[test]
fn sub_image_of_whole_image_is_the_image() {
    let img = counting_image(3, 4);
    let sub = img.sub_image(PixelRect { x: 0, y: 0, w: 3, h: 4 });
    assert_eq!(sub.bytes, img.bytes);
    assert_eq!(sub.width, 3);
    assert_eq!(sub.height, 4);
}

#[test]
fn sub_image_empty_rectangle() {
    let img = counting_image(3, 4);
    let sub = img.sub_image(PixelRect { x: 100, y: 100, w: 5, h: 0 });
    assert!(sub.bytes.is_empty());
    assert_eq!(sub.width, 5);
    assert_eq!(sub.height, 0);
}

#[test]
fn sub_image_row_running_past_edge_reads_next_row() {
    let img = counting_image(2, 2);
    let sub = img.sub_image(PixelRect { x: 1, y: 0, w: 2, h: 1 });
    assert_eq!(sub.bytes, vec![4, 5, 6, 7, 8, 9, 10, 11]);
}

#[test]
fn flipped_rows_reverses_rows() {
    let img = counting_image(2, 3);
    let flipped = img.flipped_rows();
    assert_eq!(&flipped[0..8], &img.bytes[16..24]);
    assert_eq!(&flipped[8..16], &img.bytes[8..16]);
    assert_eq!(&flipped[16..24], &img.bytes[0..8]);
}

#[test]
fn flipping_twice_restores_the_bytes() {
    let img = counting_image(5, 4);
    let once = Image { bytes: img.flipped_rows(), width: 5, height: 4 };
    assert_eq!(once.flipped_rows(), img.bytes);
}

#[test]
fn flipped_rows_of_empty_image() {
    assert!(Image::empty().flipped_rows().is_empty());
}

#[test]
fn debug_string_shows_sizes() {
    let img = Image::gen_image_color(12, 3, [0, 0, 0, 0]);
    assert_eq!(img.debug_string(), "Image { width: 12, height: 3, bytes.len(): 144 }");
    assert_eq!(Image::empty().debug_string(), "Image { width: 0, height: 0, bytes.len(): 0 }");
    let wide = Image { bytes: vec![0; 7], width: 65535, height: 100 };
    assert_eq!(wide.debug_string(), "Image { width: 65535, height: 100, bytes.len(): 7 }");
}

#[test]
fn set_pixel_at_writes_by_index() {
    let mut img = Image::gen_image_color(3, 2, [0, 0, 0, 0]);
    img.set_pixel_at(4, [7, 7, 7, 7]);
    assert_eq!(img.get_pixel(1, 1), [7, 7, 7, 7]);
    assert_eq!(img.get_pixel(0, 1), [0, 0, 0, 0]);
    assert_eq!(img.bytes.len(), 24);
}

#[test]
fn sub_image_of_sub_image_is_combined_sub_image() {
    let img = counting_image(6, 5);
    let outer = img.sub_image(PixelRect { x: 1, y: 1, w: 4, h: 3 });
    let inner = outer.sub_image(PixelRect { x: 2, y: 1, w: 2, h: 2 });
    let direct = img.sub_image(PixelRect { x: 3, y: 2, w: 2, h: 2 });
    assert_eq!(inner.bytes, direct.bytes);
    assert_eq!(inner.width, direct.width);
    assert_eq!(inner.height, direct.height);
}

#[test]
fn update_with_one_colour_equals_fill() {
    let mut img = counting_image(3, 2);
    img.update(&vec![[4, 3, 2, 1]; 6]);
    assert_eq!(img.bytes, Image::gen_image_color(3, 2, [4, 3, 2, 1]).bytes);
}
