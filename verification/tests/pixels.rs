use actool::canvas::{finish_canvas, place_drawing, to_straight_rgba};
use actool::pixels::{
    bgra_to_best_format, load_image_as_bgra, premultiply_bgra, premultiply_ga8, swap_channels,
};

fn png_of(width: u32, height: u32, rgba: [u8; 4]) -> Vec<u8> {
    let img = image::RgbaImage::from_pixel(width, height, image::Rgba(rgba));
    let mut out = std::io::Cursor::new(Vec::new());
    img.write_to(&mut out, image::ImageFormat::Png).unwrap();
    out.into_inner()
}

#[test]
fn premultiply_bgra_zero_alpha() {
    let data = vec![0xFF, 0xFF, 0xFF, 0x00];
    let out = premultiply_bgra(data);
    assert_eq!(out, vec![0, 0, 0, 0]);
}

#[test]
fn premultiply_bgra_half_alpha() {
    let data = vec![0xFF, 0xFF, 0xFF, 0x80];
    let out = premultiply_bgra(data);
    assert_eq!(out, vec![128, 128, 128, 128]);
}

#[test]
fn bgra_grayscale_detected() {
    let data = vec![0x80, 0x80, 0x80, 0xFF, 0x80, 0x80, 0x80, 0xFF];
    let (out, w, h, fmt) = bgra_to_best_format(data, 2, 1, false);
    assert_eq!(&fmt, b" 8AG");
    assert_eq!(out, vec![0x80, 0xFF, 0x80, 0xFF]);
    assert_eq!(w, 2);
    assert_eq!(h, 1);
}

#[test]
fn bgra_nongray_kept() {
    let data = vec![0xFF, 0x00, 0x00, 0xFF];
    let (_, _, _, fmt) = bgra_to_best_format(data, 1, 1, false);
    assert_eq!(&fmt, b"BGRA");
}

#[test]
fn color_can_be_forced() {
    let data = vec![1, 1, 1, 255];
    let (out, _, _, fmt) = bgra_to_best_format(data.clone(), 1, 1, true);
    assert_eq!(&fmt, b"BGRA");
    assert_eq!(out, data);
}

#[test]
fn gray_is_premultiplied() {
    assert_eq!(premultiply_ga8(vec![200, 0, 200, 255, 255, 128]), vec![0, 0, 200, 255, 128, 128]);
}

#[test]
fn swapping_channels_twice() {
    let data = vec![1, 2, 3, 4, 5, 6, 7, 8];
    let once = swap_channels(&data);
    assert_eq!(once, vec![3, 2, 1, 4, 7, 6, 5, 8]);
    assert_eq!(swap_channels(&once), data);
}

#[test]
fn png_files_are_loaded() {
    let data = png_of(3, 2, [255, 0, 0, 128]);
    let (pixels, w, h, format) = load_image_as_bgra("dir/red.png", &data, false).unwrap();
    assert_eq!((w, h), (3, 2));
    assert_eq!(&format, b"BGRA");
    assert_eq!(&pixels[..4], &[0, 0, 128, 128]);
    assert_eq!(pixels.len(), 24);
}

#[test]
fn gray_png_files_are_stored_as_gray() {
    let data = png_of(2, 2, [128, 128, 128, 255]);
    let (pixels, _, _, format) = load_image_as_bgra("gray.png", &data, false).unwrap();
    assert_eq!(&format, b" 8AG");
    assert_eq!(pixels, vec![128, 255, 128, 255, 128, 255, 128, 255]);
    let (_, _, _, format) = load_image_as_bgra("gray.png", &data, true).unwrap();
    assert_eq!(&format, b"BGRA");
}

#[test]
fn what_is_no_image_is_not_loaded() {
    assert!(load_image_as_bgra("x.png", b"no image", false).is_none());
    assert!(load_image_as_bgra("x.unknown", &png_of(1, 1, [0, 0, 0, 255]), false).is_none());
}

#[test]
fn opaque_drawings_survive_the_canvas() {
    let bgra = vec![10, 20, 30, 255, 40, 50, 60, 255];
    let rgba = to_straight_rgba(&bgra);
    assert_eq!(rgba, vec![30, 20, 10, 255, 60, 50, 40, 255]);
    assert_eq!(finish_canvas(&rgba), bgra);
}

#[test]
fn alpha_is_divided_out() {
    assert_eq!(to_straight_rgba(&vec![64, 0, 128, 128]), vec![255, 0, 128, 128]);
    assert_eq!(to_straight_rgba(&vec![9, 9, 9, 0]), vec![0, 0, 0, 0]);
    assert_eq!(to_straight_rgba(&vec![9, 9]), vec![0, 0]);
}

#[test]
fn drawings_are_clipped_to_the_canvas() {
    // A 2x2 drawing at (-1, 1) on a 2x2 canvas: only its right column lands, in row 1.
    assert_eq!(place_drawing(-1, 1, 2, 2, 2), vec![(2, 1)]);
    assert_eq!(place_drawing(0, 0, 2, 2, 2), vec![(0, 0), (1, 1), (2, 2), (3, 3)]);
    assert!(place_drawing(5, 5, 2, 2, 2).is_empty());
    assert!(place_drawing(i64::MAX, 0, 2, 2, 2).is_empty());
}
