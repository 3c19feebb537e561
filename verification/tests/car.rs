use actool::car::{
    colorspace_for_pixel_format, compute_keyformat, compute_keyformat_ios,
    make_appearancekeys_entries, make_carheader, make_carheader_full, make_carheader_versioned,
    make_extended_metadata, make_facetkey_value, make_keyformat, make_rendition_key,
    KeyformatRendition, RenditionKeyParts,
};
use actool::platform::{
    deployment_platform_name, idiom_value, is_idiom_platform, min_dmp2_version, min_ga8_version,
    min_jpeg_car_version, min_lzfse_version, min_pack_version, parse_version,
};

struct R {
    direction: u32,
    dim1: u32,
    dim2: u32,
}

impl KeyformatRendition for R {
    fn direction(&self) -> u32 {
        self.direction
    }
    fn dim1(&self) -> u32 {
        self.dim1
    }
    fn dim2(&self) -> u32 {
        self.dim2
    }
}

#[test]
fn carheader_layout() {
    let hdr = make_carheader(5);
    assert_eq!(hdr.len(), 436);
    assert_eq!(&hdr[..4], b"RATC");
    assert_eq!(u32::from_le_bytes(hdr[16..20].try_into().unwrap()), 5);
    assert_eq!(u32::from_le_bytes(hdr[424..428].try_into().unwrap()), 2);
    assert_eq!(u32::from_le_bytes(hdr[428..432].try_into().unwrap()), 1);
    assert_eq!(u32::from_le_bytes(hdr[432..436].try_into().unwrap()), 1);
}

#[test]
fn version_matches_expected_fields() {
    let hdr = make_carheader(0);
    assert_eq!(&hdr[..4], b"RATC");
    let _ = actool::bom::BomWriter::new();
}

#[test]
fn keyformat_block() {
    let kf = make_keyformat(&[7, 13, 1, 2, 3, 17, 11, 12]);
    assert_eq!(&kf[..4], b"tmfk");
    assert_eq!(u32::from_le_bytes(kf[8..12].try_into().unwrap()), 8);
}

#[test]
fn rendition_key_shape() {
    let p = RenditionKeyParts {
        appearance: 0,
        unknown13: 0,
        element: 85,
        part: 181,
        size: 0,
        direction: 0,
        identifier: 7,
        dim1: 0,
        dim2: 0,
        layer: 0,
        scale: 2,
        idiom: 0,
        subtype: 0,
        variant: 0,
    };
    let k = make_rendition_key(p, &[7, 13, 1, 2, 3, 17, 11, 12]);
    assert_eq!(k.len(), 16);
    assert_eq!(u16::from_le_bytes(k[10..12].try_into().unwrap()), 7);
}

#[test]
fn compute_keyformat_trims_unused() {
    let rs = vec![R { direction: 0, dim1: 0, dim2: 0 }, R { direction: 0, dim1: 0, dim2: 0 }];
    let kf = compute_keyformat(&rs, false);
    for t in &[4, 8, 9] {
        assert!(!kf.contains(t), "expected {t} to be absent");
    }
}

#[test]
fn keyformat_has_columns_in_use() {
    let rs = vec![R { direction: 4, dim1: 0, dim2: 0 }, R { direction: 0, dim1: 0, dim2: 2 }];
    assert_eq!(compute_keyformat(&rs, false), vec![7, 13, 1, 2, 3, 4, 17, 9, 11, 12]);
    assert_eq!(compute_keyformat(&rs, true), vec![7, 13, 1, 2, 3, 4, 17, 8, 9, 11, 12]);
    assert_eq!(compute_keyformat_ios(&rs, false), vec![7, 13, 12, 15, 16, 9, 17, 1, 2]);
    let none: Vec<R> = Vec::new();
    assert_eq!(compute_keyformat_ios(&none, false), vec![7, 13, 12, 15, 16, 17, 1, 2]);
}

#[test]
fn keys_read_back() {
    let mut p = RenditionKeyParts::default();
    p.appearance = 1;
    p.identifier = 0x1234;
    p.idiom = 2;
    p.subtype = 1792;
    let columns = [7, 13, 12, 15, 16, 17, 1, 2];
    let key = make_rendition_key(p, &columns);
    let values: Vec<u16> =
        key.chunks(2).map(|c| u16::from_le_bytes([c[0], c[1]])).collect();
    assert_eq!(values, vec![1, 0, 0, 2, 1792, 0x1234, 0, 0]);
}

#[test]
fn keyformat_lists_its_columns() {
    let kf = make_keyformat(&[7, 17]);
    assert_eq!(kf, b"tmfk\0\0\0\0\x02\0\0\0\x07\0\0\0\x11\0\0\0".to_vec());
}

#[test]
fn headers_carry_version_and_semantics() {
    let h = make_carheader_versioned(3, 975);
    assert_eq!(&h[4..8], &975u32.to_le_bytes());
    assert_eq!(&h[432..436], &[1, 0, 0, 0]);
    let h = make_carheader_full(3, 972, 2);
    assert_eq!(&h[4..8], &972u32.to_le_bytes());
    assert_eq!(&h[432..436], &[2, 0, 0, 0]);
}

#[test]
fn facet_values_read_back() {
    assert_eq!(
        make_facetkey_value(85, Some(181), 0x0a0b),
        vec![0, 0, 0, 0, 3, 0, 1, 0, 85, 0, 2, 0, 181, 0, 17, 0, 0x0b, 0x0a]
    );
    assert_eq!(
        make_facetkey_value(85, None, 2),
        vec![0, 0, 0, 0, 2, 0, 1, 0, 85, 0, 17, 0, 2, 0]
    );
}

#[test]
fn metadata_names_the_device_family() {
    let m = make_extended_metadata("iphoneos", "14.0");
    assert_eq!(&m[..4], b"META");
    let at = |from: usize| -> String {
        m[from..].iter().take_while(|b| **b != 0).map(|b| *b as char).collect()
    };
    assert_eq!(at(516), "ios");
    assert!(m.windows(4).any(|w| w == b"14.0"));
    assert_eq!(deployment_platform_name("appletvsimulator"), "atv");
    assert_eq!(deployment_platform_name("macosx"), "macosx");
}

#[test]
fn appearances_have_numbers() {
    let entries = make_appearancekeys_entries();
    let dark = entries.iter().find(|e| e.0 == b"NSAppearanceNameDarkAqua".to_vec()).unwrap();
    assert_eq!(dark.1, vec![1, 0]);
}

#[test]
fn idioms_and_platforms() {
    assert_eq!(idiom_value("iphone"), 1);
    assert_eq!(idiom_value("ipad"), 2);
    assert_eq!(idiom_value("tv"), 3);
    assert_eq!(idiom_value("ios-marketing"), 6);
    assert_eq!(idiom_value("mac"), 0);
    assert!(is_idiom_platform("iphonesimulator"));
    assert!(!is_idiom_platform("macosx"));
    assert!(!is_idiom_platform("ios"));
}

#[test]
fn versions_are_parsed() {
    assert_eq!(parse_version("10.11"), (10, 11));
    assert_eq!(parse_version("11"), (11, 0));
    assert_eq!(parse_version("x.3"), (0, 3));
    assert_eq!(parse_version(""), (0, 0));
    assert_eq!(min_lzfse_version("macosx"), (10, 11));
    assert_eq!(min_dmp2_version("macosx"), (11, 0));
    assert_eq!(min_jpeg_car_version("macosx"), (10, 10));
    assert!(min_pack_version("macosx") >= (10, 0));
    assert!(min_ga8_version("macosx") >= (10, 0));
}

#[test]
fn color_spaces_follow_formats() {
    assert_eq!(colorspace_for_pixel_format(b" 8AG"), 2);
    assert_eq!(colorspace_for_pixel_format(b"BGRA"), 1);
}
