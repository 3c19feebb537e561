//! Catalogs of phones and pads.

use std::collections::HashSet;

use serde_json::Value;

use actool::compiler::{try_compile_catalog, Compiled};
use actool::files::{File, Item};
use actool::json::{Json, Number};
use actool::outputs::{list_outputs, Output, Wishes};
use actool::project::{read_project, Options, Project};
use actool::report::resolve_coreui_version;

fn json(value: &Value) -> Json {
    match value {
        Value::Null => Json::Null,
        Value::Bool(b) => Json::Bool(*b),
        Value::Number(n) => {
            let v = n.as_f64().unwrap();
            Json::Number(Number { double: v.to_bits(), single: (v as f32).to_bits() })
        }
        Value::String(s) => Json::Text(s.clone()),
        Value::Array(a) => Json::List(a.iter().map(json).collect()),
        Value::Object(o) => Json::Object(o.iter().map(|(k, v)| (k.clone(), json(v))).collect()),
    }
}

fn file(data: Vec<u8>) -> Item {
    Item::File(File { data: Some(data), json: None, drawings: Vec::new() })
}

fn contents(text: &str) -> (String, Item) {
    let value: Option<Value> = serde_json::from_str(text).ok();
    let item = Item::File(File {
        data: Some(text.as_bytes().to_vec()),
        json: value.as_ref().map(json),
        drawings: Vec::new(),
    });
    ("Contents.json".to_string(), item)
}

fn png_of(width: u32, height: u32, rgba: [u8; 4]) -> Vec<u8> {
    let img = image::RgbaImage::from_pixel(width, height, image::Rgba(rgba));
    let mut out = std::io::Cursor::new(Vec::new());
    img.write_to(&mut out, image::ImageFormat::Png).unwrap();
    out.into_inner()
}

fn hash(name: &str) -> u16 {
    let mut h: u32 = 0;
    for b in name.bytes() {
        h = h * 31 % 65521 + b as u32;
    }
    (h % 65535 + 1) as u16
}

fn component(text: &str) -> u64 {
    text.parse::<f64>().unwrap_or(0.0).to_bits()
}

/// A catalog with the header that every catalog has.
fn catalog_of(mut entries: Vec<(String, Item)>) -> Item {
    entries.insert(0, contents(r#"{"info":{"author":"xcode","version":1}}"#));
    Item::Folder(entries)
}

fn options(platform: &str, min_deploy: &str, app_icon: Option<&str>) -> Options {
    Options {
        platform: platform.to_string(),
        min_deploy: min_deploy.to_string(),
        app_icon: app_icon.map(|s| s.to_string()),
        include_languages: None,
        development_region: None,
        draws_svg: false,
    }
}

fn read(catalog: Item, options: &Options) -> Project {
    let sources = vec![("Test.xcassets".to_string(), Some(catalog))];
    match read_project(&sources, options, &hash, &component) {
        Ok(p) => p,
        Err(e) => panic!("cannot read the catalog: {e:?}"),
    }
}

/// The archive of a project, for the version that is resolved where none is set.
fn compile(project: Project, options: &Options) -> Option<Vec<u8>> {
    let version = resolve_coreui_version(&options.platform, None, None, None);
    let out = try_compile_catalog(
        project.renditions,
        &project.facets,
        options.app_icon.is_some(),
        &options.min_deploy,
        &options.platform,
        version,
    );
    match out.expect("the renditions can be stored") {
        Compiled::Archive(bytes) => Some(bytes),
        Compiled::Nothing => None,
        Compiled::TooLarge => panic!("too large"),
    }
}

fn read_u32_le(buf: &[u8], off: usize) -> u32 {
    u32::from_le_bytes([buf[off], buf[off + 1], buf[off + 2], buf[off + 3]])
}

/// The columns of the keys of an archive.
fn keyformat(car: &[u8]) -> Vec<u32> {
    let i = car.windows(4).position(|w| w == b"tmfk").expect("tmfk block");
    let n = read_u32_le(car, i + 8) as usize;
    (0..n).map(|k| read_u32_le(car, i + 12 + 4 * k)).collect()
}

/// An image set with every idiom, among them the two that iOS image sets drop.
fn mixed_catalog() -> Item {
    let set = Item::Folder(vec![
        ("p1.png".to_string(), file(png_of(10, 10, [255, 0, 0, 255]))),
        ("p2.png".to_string(), file(png_of(20, 20, [0, 255, 0, 255]))),
        ("p3.png".to_string(), file(png_of(30, 30, [0, 0, 255, 255]))),
        contents(
            r#"{
          "images":[
            {"idiom":"iphone","scale":"1x","filename":"p1.png"},
            {"idiom":"iphone","scale":"2x","filename":"p2.png"},
            {"idiom":"iphone","scale":"3x","filename":"p3.png"},
            {"idiom":"ipad","scale":"1x","filename":"p1.png"},
            {"idiom":"ipad","scale":"2x","filename":"p2.png"},
            {"idiom":"mac","scale":"1x","filename":"p1.png"},
            {"idiom":"ios-marketing","scale":"1x","filename":"p1.png"}
          ],
          "info":{"author":"xcode","version":1}
        }"#,
        ),
    ]);
    catalog_of(vec![("Glyph.imageset".to_string(), set)])
}

fn appicon_catalog(entries: &[(&str, &str, &str)]) -> Item {
    let mut set: Vec<(String, Item)> = Vec::new();
    let mut images: Vec<String> = Vec::new();
    for (size, scale, idiom) in entries {
        let pt: f64 = size.split('x').next().unwrap().parse().unwrap();
        let px = (pt * scale[..1].parse::<f64>().unwrap()).round() as u32;
        let name = format!("i{px}.png");
        set.push((name.clone(), file(png_of(px, px, [64, 128, 192, 255]))));
        images.push(format!(
            r#"{{"size":"{size}","idiom":"{idiom}","filename":"{name}","scale":"{scale}"}}"#
        ));
    }
    let text = format!(
        r#"{{"images":[{}],"info":{{"author":"xcode","version":1}}}}"#,
        images.join(",")
    );
    set.push(contents(&text));
    catalog_of(vec![("AppIcon.appiconset".to_string(), Item::Folder(set))])
}

fn wishes(app_icon: Option<&str>) -> Wishes {
    Wishes {
        app_icon: app_icon.map(|s| s.to_string()),
        accent_color: None,
        widget_background_color: None,
        standalone_icon: true,
        info_plist: true,
        localizations: true,
    }
}

/// The names of the icon files, and the text of the property list.
fn icon_outputs(catalog: Item) -> (Vec<String>, String) {
    let options = options("iphoneos", "14.0", Some("AppIcon"));
    let project = read(catalog, &options);
    let outputs =
        list_outputs(&project, true, &Vec::new(), "iphoneos", &wishes(Some("AppIcon")));
    let mut names = Vec::new();
    let mut plist = String::new();
    for output in outputs {
        match output {
            Output::Icon(icon) => names.push(icon.filename),
            Output::IconFile(name) => names.push(name),
            Output::Plist(text) => plist = text,
            _ => {}
        }
    }
    (names, plist)
}

#[test]
fn ios_imageset_emits_idiom_keyformat_and_header() {
    let options = options("iphoneos", "14.0", None);
    let project = read(mixed_catalog(), &options);
    let car = compile(project, &options).expect("car");
    assert_eq!(keyformat(&car), vec![7, 13, 12, 15, 16, 17, 1, 2]);
    let h = car.windows(4).position(|w| w == b"RATC").expect("RATC block");
    assert_eq!(read_u32_le(&car, h + 4), 975, "coreui version");
    assert_eq!(read_u32_le(&car, h + 432), 2, "key semantics");
    let m = car.windows(4).position(|w| w == b"META").expect("META block");
    let platform: String = car[m + 516..m + 516 + 8]
        .iter()
        .take_while(|b| **b != 0)
        .map(|b| *b as char)
        .collect();
    assert_eq!(platform, "ios");
}

#[test]
fn ios_imageset_filters_mac_and_marketing_idioms() {
    let options = options("iphoneos", "14.0", None);
    let project = read(mixed_catalog(), &options);
    let idioms: Vec<u16> = project.renditions.iter().map(|r| r.idiom).collect();
    assert!(idioms.contains(&1), "expected an iphone (1) rendition");
    assert!(idioms.contains(&2), "expected an ipad (2) rendition");
    assert!(!idioms.contains(&6), "ios-marketing (6) must be dropped from imagesets");
    assert_eq!(idioms, vec![1, 1, 1, 2, 2]);
}

#[test]
fn ios_appicon_emits_loose_primary_pngs() {
    let (names, _) = icon_outputs(appicon_catalog(&[
        ("60x60", "2x", "iphone"),
        ("60x60", "3x", "iphone"),
        ("76x76", "2x", "ipad"),
        ("1024x1024", "1x", "ios-marketing"),
    ]));
    assert_eq!(names, vec!["AppIcon60x60@2x.png", "AppIcon76x76@2x~ipad.png"]);
}

#[test]
fn ios_appicon_partial_plist_has_cfbundleicons() {
    let (_, plist) =
        icon_outputs(appicon_catalog(&[("60x60", "2x", "iphone"), ("76x76", "2x", "ipad")]));
    assert!(plist.contains("<key>CFBundleIcons</key>"));
    assert!(plist.contains("<key>CFBundleIcons~ipad</key>"));
    assert!(plist.contains("<key>CFBundlePrimaryIcon</key>"));
    assert!(plist.contains("<string>AppIcon60x60</string>"));
    assert!(plist.contains("<string>AppIcon76x76</string>"));
    assert!(plist.contains("<key>CFBundleIconName</key>"));
    assert!(!plist.contains("<key>CFBundleIconFile</key>"));
}

#[test]
fn ios_appicon_ipad_files_only_with_ipad_icons() {
    let (names, plist) =
        icon_outputs(appicon_catalog(&[("60x60", "2x", "iphone"), ("60x60", "3x", "iphone")]));
    assert!(plist.contains("<key>CFBundleIcons~ipad</key>"));
    assert!(!plist.contains("AppIcon76x76"));
    assert!(!names.iter().any(|n| n == "AppIcon76x76@2x~ipad.png"));
}

fn compile_ios_icon(catalog: Item) -> Vec<u8> {
    let options = options("iphoneos", "14.0", Some("AppIcon"));
    let project = read(catalog, &options);
    compile(project, &options).expect("car")
}

/// All runs of numbers in an archive that could be keys.
fn candidate_keys(car: &[u8], columns: usize) -> Vec<Vec<u16>> {
    let mut out = Vec::new();
    let mut i = 0;
    while i + columns * 2 <= car.len() {
        let key: Vec<u16> = (0..columns)
            .map(|c| u16::from_le_bytes([car[i + c * 2], car[i + c * 2 + 1]]))
            .collect();
        if key[0] == 0 && key[1] == 0 {
            out.push(key);
        }
        i += 2;
    }
    out
}

fn column(kf: &[u32], attr: u32) -> usize {
    kf.iter().position(|t| *t == attr).expect("column")
}

#[test]
fn ios_appicon_renditions_carry_device_idiom() {
    let car = compile_ios_icon(appicon_catalog(&[
        ("60x60", "2x", "iphone"),
        ("60x60", "3x", "iphone"),
        ("1024x1024", "1x", "ios-marketing"),
    ]));
    let kf = keyformat(&car);
    let idiom_col = column(&kf, 15);
    let mut seen = HashSet::new();
    for cols in candidate_keys(&car, kf.len()) {
        if cols[idiom_col] == 1 || cols[idiom_col] == 6 {
            seen.insert(cols[idiom_col]);
        }
    }
    assert!(seen.contains(&1), "expected a phone (1) icon rendition");
    assert!(seen.contains(&6), "expected a marketing (6) icon rendition");
}

#[test]
fn ios_appicon_keyformat_adds_dim2_and_renditions_dont_collide() {
    let car = compile_ios_icon(appicon_catalog(&[
        ("20x20", "2x", "iphone"),
        ("29x29", "2x", "iphone"),
        ("40x40", "2x", "iphone"),
        ("60x60", "2x", "iphone"),
        ("60x60", "3x", "iphone"),
    ]));
    let kf = keyformat(&car);
    assert!(kf.contains(&9), "app-icon keyformat must include dim2 (9)");
    let sub = column(&kf, 16);
    let d2 = column(&kf, 9);
    assert!(d2 == sub + 1, "dim2 must follow subtype");
    let scale_col = column(&kf, 12);
    let idiom_col = column(&kf, 15);
    let mut d2_at_scale2 = HashSet::new();
    for cols in candidate_keys(&car, kf.len()) {
        if cols[scale_col] == 2 && cols[idiom_col] == 1 {
            d2_at_scale2.insert(cols[d2]);
        }
    }
    for idx in [1u16, 2, 3, 4] {
        assert!(d2_at_scale2.contains(&idx), "expected distinct phone@2x dim2={idx}");
    }
}

#[test]
fn ios_appicon_packs_into_atlases_with_dim1_and_keeps_idiom() {
    let car = compile_ios_icon(appicon_catalog(&[
        ("20x20", "2x", "iphone"),
        ("20x20", "3x", "iphone"),
        ("29x29", "2x", "iphone"),
        ("29x29", "3x", "iphone"),
        ("40x40", "2x", "iphone"),
        ("40x40", "3x", "iphone"),
        ("60x60", "2x", "iphone"),
        ("60x60", "3x", "iphone"),
        ("1024x1024", "1x", "ios-marketing"),
    ]));
    let kf = keyformat(&car);
    assert!(kf.contains(&9), "keyformat must carry dim2");
    assert!(kf.contains(&8), "keyformat must carry dim1 once icons pack");
    let el = column(&kf, 1);
    let idiom_col = column(&kf, 15);
    let packed_phone =
        candidate_keys(&car, kf.len()).iter().any(|c| c[el] == 9 && c[idiom_col] == 1);
    assert!(packed_phone, "expected a phone-idiom packed atlas key");
}

#[test]
fn ios_appicon_multisize_split_per_idiom() {
    let car = compile_ios_icon(appicon_catalog(&[
        ("20x20", "2x", "iphone"),
        ("60x60", "2x", "iphone"),
        ("76x76", "2x", "ipad"),
        ("1024x1024", "1x", "ios-marketing"),
    ]));
    let kf = keyformat(&car);
    let part_col = column(&kf, 2);
    let idiom_col = column(&kf, 15);
    let mut multisize_idioms = HashSet::new();
    for cols in candidate_keys(&car, kf.len()) {
        if cols[part_col] == 218 {
            multisize_idioms.insert(cols[idiom_col]);
        }
    }
    for idiom in [1u16, 2, 6] {
        assert!(
            multisize_idioms.contains(&idiom),
            "expected a MultiSized facet for idiom {idiom}"
        );
    }
}

#[test]
fn ios_appicon_synthesizes_plus_phone_subtype_1792() {
    let car = compile_ios_icon(appicon_catalog(&[
        ("60x60", "2x", "iphone"),
        ("60x60", "3x", "iphone"),
        ("1024x1024", "1x", "ios-marketing"),
    ]));
    let kf = keyformat(&car);
    let sub_col = column(&kf, 16);
    let part_col = column(&kf, 2);
    let d2_col = column(&kf, 9);
    let scale_col = column(&kf, 12);
    let keys = candidate_keys(&car, kf.len());
    let multisize_1792 = keys.iter().any(|c| c[sub_col] == 1792 && c[part_col] == 218);
    let leaf_1792 = keys.iter().any(|c| {
        c[sub_col] == 1792 && c[part_col] == 220 && c[scale_col] == 2 && c[d2_col] == 7
    });
    assert!(multisize_1792, "expected a subtype-1792 multisize facet");
    assert!(leaf_1792, "expected a subtype-1792 90pt leaf icon");
}

#[test]
fn ios_appicon_no_subtype_without_60pt_at_3x() {
    let car = compile_ios_icon(appicon_catalog(&[
        ("60x60", "2x", "iphone"),
        ("1024x1024", "1x", "ios-marketing"),
    ]));
    let kf = keyformat(&car);
    let sub_col = column(&kf, 16);
    let part_col = column(&kf, 2);
    let any_1792 = candidate_keys(&car, kf.len())
        .iter()
        .any(|c| c[sub_col] == 1792 && (c[part_col] == 218 || c[part_col] == 220));
    assert!(!any_1792, "no subtype-1792 expected without a 60pt@3x icon");
}

fn single_size_catalog(images: &str, files: Vec<(&str, u32)>) -> Item {
    let mut set: Vec<(String, Item)> = Vec::new();
    for (name, side) in files {
        set.push((name.to_string(), file(png_of(side, side, [64, 128, 192, 255]))));
    }
    set.push(contents(images));
    catalog_of(vec![("AppIcon.appiconset".to_string(), Item::Folder(set))])
}

#[test]
fn ios_appicon_single_size() {
    let images = r#"{
      "images":[{"filename":"Icon.png","idiom":"universal","platform":"ios","size":"1024x1024"}],
      "info":{"author":"xcode","version":1}
    }"#;
    let car = compile_ios_icon(single_size_catalog(images, vec![("Icon.png", 1024)]));
    let kf = keyformat(&car);
    assert_eq!(kf, vec![7, 13, 12, 15, 16, 9, 17, 1, 2]);
    let h = car.windows(4).position(|w| w == b"RATC").expect("CARHEADER");
    assert_eq!(read_u32_le(&car, h + 4), 975, "single-size CoreUI version");
    assert_eq!(read_u32_le(&car, h + 432), 2, "single-size key semantics");
    let scale_col = column(&kf, 12);
    let idiom_col = column(&kf, 15);
    let d2_col = column(&kf, 9);
    let part_col = column(&kf, 2);
    let mut seen = HashSet::new();
    for c in candidate_keys(&car, kf.len()) {
        if c[scale_col] == 1 && c[d2_col] == 1 && c[part_col] == 220 {
            seen.insert(c[idiom_col]);
        }
    }
    assert!(seen.contains(&1), "expected phone idiom rendition");
    assert!(seen.contains(&2), "expected pad idiom rendition");
    let (names, plist) = icon_outputs(single_size_catalog(images, vec![("Icon.png", 1024)]));
    assert_eq!(names, vec!["AppIcon60x60@2x.png", "AppIcon76x76@2x~ipad.png"]);
    assert!(plist.contains("<key>CFBundleIcons</key>"));
    assert!(plist.contains("<key>CFBundleIcons~ipad</key>"));
    assert!(plist.contains("<string>AppIcon60x60</string>"));
    assert!(plist.contains("<string>AppIcon76x76</string>"));
}

#[test]
fn ios_appicon_filters_mac_idioms_from_mixed_set() {
    let images = r#"{
      "images":[
        {"filename":"icon-ios-1024.png","idiom":"universal","platform":"ios","size":"1024x1024"},
        {"filename":"icon-mac-16.png","idiom":"mac","scale":"1x","size":"16x16"},
        {"filename":"icon-mac-16@2x.png","idiom":"mac","scale":"2x","size":"16x16"},
        {"filename":"icon-mac-32.png","idiom":"mac","scale":"1x","size":"32x32"},
        {"filename":"icon-mac-32@2x.png","idiom":"mac","scale":"2x","size":"32x32"}
      ],
      "info":{"author":"xcode","version":1}
    }"#;
    let car = compile_ios_icon(single_size_catalog(
        images,
        vec![
            ("icon-ios-1024.png", 1024),
            ("icon-mac-16.png", 16),
            ("icon-mac-16@2x.png", 32),
            ("icon-mac-32.png", 32),
            ("icon-mac-32@2x.png", 64),
        ],
    ));
    let kf = keyformat(&car);
    let scale_col = column(&kf, 12);
    let idiom_col = column(&kf, 15);
    let d2_col = column(&kf, 9);
    let part_col = column(&kf, 2);
    let mut seen_idioms = HashSet::new();
    for c in candidate_keys(&car, kf.len()) {
        if c[scale_col] == 1 && c[d2_col] == 1 && c[part_col] == 220 {
            seen_idioms.insert(c[idiom_col]);
        }
    }
    assert_eq!(seen_idioms, HashSet::from([1u16, 2u16]));
}
