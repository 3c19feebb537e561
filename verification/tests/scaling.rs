use actool::icon_renditions::{macos_icon_size, ICON_SIZES};
use actool::plist::LooseIcon;
use actool::report::build_exif_dimensions;
use actool::scaling::{
    make_drawn_image, make_icon_png, make_loose_icon, make_source_images, scale_layer, scale_png,
    MAX_FILTERED_SIDE,
};

fn png_file(width: u32, height: u32, rgba: Vec<u8>) -> Vec<u8> {
    let img = image::RgbaImage::from_raw(width, height, rgba).unwrap();
    let mut out = std::io::Cursor::new(Vec::new());
    img.write_to(&mut out, image::ImageFormat::Png).unwrap();
    out.into_inner()
}

fn solid(width: u32, height: u32, rgba: [u8; 4]) -> Vec<u8> {
    png_file(width, height, rgba.repeat((width * height) as usize))
}

fn pixels(file: &[u8]) -> (u32, u32, Vec<u8>) {
    let img = image::load_from_memory(file).unwrap().to_rgba8();
    (img.width(), img.height(), img.into_raw())
}

fn holds(file: &[u8], what: &[u8]) -> bool {
    file.windows(what.len()).any(|w| w == what)
}

const FOUR: [u8; 16] = [255, 0, 0, 255, 0, 255, 0, 255, 0, 0, 255, 128, 9, 8, 7, 255];

#[test]
fn icons_are_scaled_to_a_square() {
    let file = scale_png("png", &solid(8, 8, [10, 200, 30, 255]), 4).unwrap();
    assert_eq!(pixels(&file), (4, 4, [10, 200, 30, 255].repeat(16)));
    assert!(holds(&file, b"sRGB"));
    let mut exif = b"eXIf".to_vec();
    exif.extend(build_exif_dimensions(4, 4));
    assert!(holds(&file, &exif));
    let larger = scale_png("png", &solid(2, 2, [1, 2, 3, 255]), 6).unwrap();
    assert_eq!(pixels(&larger), (6, 6, [1, 2, 3, 255].repeat(36)));
}

#[test]
fn icons_of_their_size_keep_their_pixels() {
    let file = scale_png("png", &png_file(2, 2, FOUR.to_vec()), 2).unwrap();
    assert_eq!(pixels(&file), (2, 2, FOUR.to_vec()));
    assert_eq!(Some(file), make_icon_png(&FOUR.to_vec(), 2));
}

#[test]
fn icons_that_cannot_be_scaled() {
    assert!(scale_png("png", &solid(8, 4, [1, 2, 3, 255]), 4).is_none());
    assert!(scale_png("png", b"no image", 4).is_none());
    assert!(scale_png("bin", &solid(8, 8, [1, 2, 3, 255]), 4).is_none());
    assert!(scale_png("png", &solid(8, 8, [1, 2, 3, 255]), 0).is_none());
    assert!(scale_png("png", &solid(8, 8, [1, 2, 3, 255]), u32::MAX).is_none());
}

#[test]
fn icon_files_are_made_of_complete_pixels() {
    let file = make_icon_png(&[5, 6, 7, 8].repeat(9), 3).unwrap();
    assert_eq!(pixels(&file), (3, 3, [5, 6, 7, 8].repeat(9)));
    assert!(make_icon_png(&[5, 6, 7, 8].repeat(8), 3).is_none());
    assert!(make_icon_png(&Vec::new(), 0).is_none());
}

#[test]
fn loose_icons_are_copied_or_scaled() {
    let icon = LooseIcon {
        filename: "A4x4@2x.png".to_string(),
        src: "set/a.png".to_string(),
        point_w: 4,
        scale: 2,
    };
    let right = solid(8, 8, [1, 2, 3, 255]);
    assert_eq!(make_loose_icon(&icon, &right), Some(right.clone()));
    assert_eq!(make_loose_icon(&icon, b"no image"), Some(b"no image".to_vec()));
    let wrong = solid(16, 16, [1, 2, 3, 255]);
    let file = make_loose_icon(&icon, &wrong).unwrap();
    assert_eq!(pixels(&file), (8, 8, [1, 2, 3, 255].repeat(64)));
    assert_eq!(Some(file), scale_png("png", &wrong, 8));
    assert!(make_loose_icon(&icon, &solid(16, 8, [1, 2, 3, 255])).is_none());
    let other = LooseIcon { src: "set/a.bin".to_string(), ..icon };
    assert!(make_loose_icon(&other, &wrong).is_none());
}

#[test]
fn sources_come_in_all_sizes() {
    let images = make_source_images("png", &solid(8, 4, [40, 50, 60, 255])).unwrap();
    assert_eq!(images.len(), ICON_SIZES);
    for (i, (file, width)) in images.iter().enumerate() {
        let (points, scale) = macos_icon_size(i);
        let side = points * scale;
        assert_eq!(*width, side as u64);
        let (w, h, rgba) = pixels(file);
        assert_eq!((w, h), (side, side));
        assert!(rgba.chunks_exact(4).all(|px| px == [40, 50, 60, 255]));
        assert!(!holds(file, b"eXIf"));
    }
    assert!(make_source_images("png", b"no image").is_none());
}

#[test]
fn a_source_keeps_its_pixels_in_its_own_size() {
    let rgba: Vec<u8> = (0..32u32 * 32 * 4).map(|i| (i * 7 % 251) as u8).collect();
    let images = make_source_images("png", &png_file(32, 32, rgba.clone())).unwrap();
    assert_eq!(images[0].1, 32);
    assert_eq!(pixels(&images[0].0), (32, 32, rgba));
}

#[test]
fn drawings_change_red_and_blue() {
    let file = make_drawn_image(&FOUR.to_vec(), 2).unwrap();
    let swapped = vec![0, 0, 255, 255, 0, 255, 0, 255, 255, 0, 0, 128, 7, 8, 9, 255];
    assert_eq!(pixels(&file), (2, 2, swapped));
    assert!(make_drawn_image(&FOUR.to_vec(), 3).is_none());
}

#[test]
fn layers_are_scaled_to_any_size() {
    let layer = solid(4, 4, [9, 90, 200, 255]);
    assert_eq!(scale_layer("png", &layer, 3, 7), Some([9, 90, 200, 255].repeat(21)));
    assert_eq!(scale_layer("png", &png_file(2, 2, FOUR.to_vec()), 2, 2), Some(FOUR.to_vec()));
    assert!(scale_layer("png", b"no image", 3, 7).is_none());
    assert!(scale_layer("png", &layer, u32::MAX, u32::MAX).is_none());
}

#[test]
fn long_images_are_scaled() {
    let layer = solid(MAX_FILTERED_SIDE + 8, 1, [9, 90, 200, 255]);
    assert_eq!(scale_layer("png", &layer, 3, 2), Some([9, 90, 200, 255].repeat(6)));
    let same = scale_layer("png", &layer, MAX_FILTERED_SIDE + 8, 1).unwrap();
    assert_eq!(same.len(), 4 * (MAX_FILTERED_SIDE as usize + 8));
    assert!(scale_layer("png", &layer, MAX_FILTERED_SIDE + 9, 1).is_none());
    assert!(scale_png("png", &layer, 2).is_none());
}

#[test]
fn layers_are_scaled_from_their_own_pixels() {
    let red = scale_layer("png", &solid(4, 4, [200, 10, 30, 255]), 2, 2).unwrap();
    assert_eq!(red, [200, 10, 30, 255].repeat(4));
    let rgba: Vec<u8> = (0..8u32 * 8 * 4).map(|i| (i * 37 % 256) as u8).collect();
    let img = image::RgbaImage::from_raw(8, 8, rgba.clone()).unwrap();
    let filter = image::imageops::FilterType::Lanczos3;
    let expected = image::imageops::resize(&img, 5, 3, filter).into_raw();
    assert_eq!(scale_layer("png", &png_file(8, 8, rgba), 5, 3), Some(expected));
}

#[test]
fn icons_are_scaled_in_their_own_channels() {
    let samples: Vec<u16> = (0..16u32 * 16 * 4)
        .map(|i| if i % 4 == 3 { u16::MAX } else { (i * 2_654_435 % 65_536) as u16 })
        .collect();
    let img: image::ImageBuffer<image::Rgba<u16>, Vec<u16>> =
        image::ImageBuffer::from_raw(16, 16, samples).unwrap();
    let deep = image::DynamicImage::ImageRgba16(img);
    let mut out = std::io::Cursor::new(Vec::new());
    deep.write_to(&mut out, image::ImageFormat::Png).unwrap();
    let filter = image::imageops::FilterType::Lanczos3;
    let expected = deep.resize(7, 7, filter).to_rgba8().into_raw();
    let early = image::imageops::resize(&deep.to_rgba8(), 7, 7, filter).into_raw();
    assert_ne!(expected, early);
    let file = scale_png("png", &out.into_inner(), 7).unwrap();
    assert_eq!(pixels(&file), (7, 7, expected));
}
