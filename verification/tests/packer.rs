use actool::packer::{pack_images_split, Atlas, PackedImage, MARGIN};

fn img(name: &str, w: u32, h: u32) -> PackedImage {
    PackedImage::new(name.to_string(), 0, w, h)
}

#[test]
fn empty_packing() {
    let atlases = pack_images_split(vec![], 262, 196);
    assert!(atlases.is_empty());
}

#[test]
fn single_image_placed_with_margin() {
    let atlases = pack_images_split(vec![img("a", 10, 10)], 262, 196);
    assert_eq!(atlases.len(), 1);
    let atlas = &atlases[0];
    assert_eq!(atlas.images.len(), 1);
    assert_eq!(atlas.images[0].x, MARGIN);
    assert_eq!(atlas.images[0].y, MARGIN);
    assert_eq!(atlas.width, MARGIN + 10 + MARGIN);
}

#[test]
fn two_images_same_height_go_into_columns() {
    let atlases = pack_images_split(vec![img("a", 10, 20), img("b", 15, 20)], 262, 196);
    assert_eq!(atlases.len(), 1);
    let atlas = &atlases[0];
    assert_eq!(atlas.images.len(), 2);
    assert!(atlas.images.iter().all(|i| i.y == MARGIN));
}

#[test]
fn oversized_image_overflows_new_atlas() {
    let atlases = pack_images_split(
        vec![img("tall1", 50, 100), img("tall2", 50, 100), img("tall3", 50, 100)],
        262,
        196,
    );
    assert!(atlases.iter().map(|a| a.images.len()).sum::<usize>() == 3);
}

#[test]
fn atlas_name_format() {
    let atlas = Atlas { scale: 2, dim1: 3, pixel_format: *b"BGRA", ..Default::default() };
    assert_eq!(atlas.name(), "ZZZZPackedAsset-2.3.0-gamut0");
    let atlas = Atlas { scale: 1, dim1: 0, pixel_format: *b" 8AG", ..Default::default() };
    assert_eq!(atlas.name(), "ZZZZPackedAsset-1.0.1-gamut0");
}

#[test]
fn bytes_per_row_alignment() {
    let atlas = Atlas { width: 10, pixel_format: *b"BGRA", ..Default::default() };
    assert_eq!(atlas.bytes_per_row(), 64);
    let atlas = Atlas { width: 10, pixel_format: *b" 8AG", ..Default::default() };
    assert_eq!(atlas.bytes_per_row(), 32);
}

#[test]
fn render_copies_pixels() {
    let mut atlas =
        Atlas { width: 10, height: 10, pixel_format: *b"BGRA", ..Default::default() };
    let mut pi = img("a", 2, 2);
    pi.x = 0;
    pi.y = 0;
    pi.pixel_data = vec![1, 2, 3, 4, 5, 6, 7, 8, 9, 10, 11, 12, 13, 14, 15, 16];
    atlas.images = vec![pi];
    atlas.render();
    assert_eq!(&atlas.pixel_data[..8], &[1, 2, 3, 4, 5, 6, 7, 8]);
    let bpr = atlas.bytes_per_row();
    assert_eq!(&atlas.pixel_data[bpr..bpr + 8], &[9, 10, 11, 12, 13, 14, 15, 16]);
}

#[test]
fn packed_images_do_not_overlap() {
    let mut images = Vec::new();
    for i in 0..40u32 {
        images.push(img(&format!("i{i}"), 5 + i * 7 % 60, 5 + i * 11 % 50));
    }
    let atlases = pack_images_split(images, 262, 196);
    let mut names: Vec<String> = Vec::new();
    for atlas in &atlases {
        for (k, a) in atlas.images.iter().enumerate() {
            names.push(a.name.clone());
            assert!(a.x >= MARGIN && a.x + a.width + MARGIN <= atlas.width);
            assert!(a.y >= MARGIN && a.y + a.height + MARGIN <= atlas.height);
            for b in &atlas.images[k + 1..] {
                let apart = a.x + a.width <= b.x
                    || b.x + b.width <= a.x
                    || a.y + a.height <= b.y
                    || b.y + b.height <= a.y;
                assert!(apart, "{} and {} overlap", a.name, b.name);
            }
        }
        assert!(atlas.width <= 262 && atlas.height <= 196);
    }
    names.sort();
    names.dedup();
    assert_eq!(names.len(), 40);
}

#[test]
fn higher_images_are_packed_first() {
    let atlases = pack_images_split(vec![img("low", 30, 10), img("high", 10, 40)], 262, 196);
    assert_eq!(atlases[0].images[0].name, "high");
}

#[test]
fn the_order_of_images_makes_no_difference() {
    let images = vec![img("a", 30, 10), img("b", 10, 40), img("c", 31, 10), img("d", 5, 7)];
    let mut reversed = images.clone();
    reversed.reverse();
    let one = pack_images_split(images, 262, 45);
    let two = pack_images_split(reversed, 262, 45);
    assert_eq!(one.len(), two.len());
    for (a, b) in one.iter().zip(&two) {
        assert_eq!((a.width, a.height), (b.width, b.height));
        let places = |t: &Atlas| -> Vec<(String, u32, u32)> {
            t.images.iter().map(|i| (i.name.clone(), i.x, i.y)).collect()
        };
        assert_eq!(places(a), places(b));
    }
}

#[test]
fn limits_may_be_of_any_size() {
    let images = vec![img("a", 100, 100), img("b", 300, 20), img("c", 50, 20)];
    let atlases = pack_images_split(images.clone(), u32::MAX, u32::MAX);
    assert_eq!(atlases.len(), 1);
    assert_eq!(atlases[0].images.len(), 3);
    assert_eq!(pack_images_split(images, 0, 0).len(), 3);
    let huge = pack_images_split(vec![img("a", u32::MAX - 4, 1)], u32::MAX, 10);
    assert_eq!(huge[0].width, u32::MAX);
}

#[test]
fn a_rendered_atlas_is_empty_between_images() {
    let mut a = img("a", 3, 2);
    a.pixel_data = vec![9; 24];
    let mut b = img("b", 2, 1);
    b.pixel_data = vec![7; 8];
    let mut atlas = pack_images_split(vec![a, b], 262, 196).remove(0);
    atlas.render();
    let bpr = atlas.bytes_per_row();
    assert_eq!(atlas.pixel_data.len(), bpr * atlas.height as usize);
    for (i, byte) in atlas.pixel_data.iter().enumerate() {
        let (row, col) = ((i / bpr) as u32, (i % bpr / 4) as u32);
        let expected = atlas
            .images
            .iter()
            .find(|p| (p.x..p.x + p.width).contains(&col) && (p.y..p.y + p.height).contains(&row))
            .map_or(0, |p| p.pixel_data[0]);
        assert_eq!(*byte, expected);
    }
    let right = atlas.images.iter().map(|p| p.x + p.width).max().unwrap();
    let lower = atlas.images.iter().map(|p| p.y + p.height).max().unwrap();
    assert_eq!((atlas.width, atlas.height), (right + MARGIN, lower + MARGIN));
}
