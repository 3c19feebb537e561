//! Catalogs of televisions.

use std::collections::HashSet;

use serde_json::Value;

use actool::brand::{
    add_brand_pictures, flatten_layers, list_scales, read_brand, BrandPicture,
};
use actool::car::{PART_REGULAR, PART_TVOS_FLATTENED, PART_TVOS_RADIOSITY};
use actool::compiler::{try_compile_catalog, Compiled};
use actool::files::{File, Item};
use actool::json::{Json, Number};
use actool::outputs::{list_outputs, Output, Wishes};
use actool::project::{read_project, Options, Project};
use actool::report::resolve_coreui_version;

fn json(value: &Value) -> Json {
    match value {
        Value::Null => Json::Null,
        Value::Bool(b) => Json::Bool(*b),
        Value::Number(n) => {
            let v = n.as_f64().unwrap();
            Json::Number(Number { double: v.to_bits(), single: (v as f32).to_bits() })
        }
        Value::String(s) => Json::Text(s.clone()),
        Value::Array(a) => Json::List(a.iter().map(json).collect()),
        Value::Object(o) => Json::Object(o.iter().map(|(k, v)| (k.clone(), json(v))).collect()),
    }
}

fn file(data: Vec<u8>) -> Item {
    Item::File(File { data: Some(data), json: None, drawings: Vec::new() })
}

fn contents(text: &str) -> (String, Item) {
    let value: Option<Value> = serde_json::from_str(text).ok();
    let item = Item::File(File {
        data: Some(text.as_bytes().to_vec()),
        json: value.as_ref().map(json),
        drawings: Vec::new(),
    });
    ("Contents.json".to_string(), item)
}

fn png_of(width: u32, height: u32, rgba: [u8; 4]) -> Vec<u8> {
    let img = image::RgbaImage::from_pixel(width, height, image::Rgba(rgba));
    let mut out = std::io::Cursor::new(Vec::new());
    img.write_to(&mut out, image::ImageFormat::Png).unwrap();
    out.into_inner()
}

fn hash(name: &str) -> u16 {
    let mut h: u32 = 0;
    for b in name.bytes() {
        h = h * 31 % 65521 + b as u32;
    }
    (h % 65535 + 1) as u16
}

fn component(text: &str) -> u64 {
    text.parse::<f64>().unwrap_or(0.0).to_bits()
}

/// A catalog with the header that every catalog has.
fn catalog_of(mut entries: Vec<(String, Item)>) -> Item {
    entries.insert(0, contents(r#"{"info":{"author":"xcode","version":1}}"#));
    Item::Folder(entries)
}

fn options(platform: &str, min_deploy: &str, app_icon: Option<&str>) -> Options {
    Options {
        platform: platform.to_string(),
        min_deploy: min_deploy.to_string(),
        app_icon: app_icon.map(|s| s.to_string()),
        include_languages: None,
        development_region: None,
        draws_svg: false,
    }
}

fn read(catalog: Item, options: &Options) -> Project {
    let sources = vec![("Test.xcassets".to_string(), Some(catalog))];
    match read_project(&sources, options, &hash, &component) {
        Ok(p) => p,
        Err(e) => panic!("cannot read the catalog: {e:?}"),
    }
}

/// The archive of a project, for the version that is resolved where none is set.
fn compile(project: Project, options: &Options) -> Option<Vec<u8>> {
    let version = resolve_coreui_version(&options.platform, None, None, None);
    let out = try_compile_catalog(
        project.renditions,
        &project.facets,
        options.app_icon.is_some(),
        &options.min_deploy,
        &options.platform,
        version,
    );
    match out.expect("the renditions can be stored") {
        Compiled::Archive(bytes) => Some(bytes),
        Compiled::Nothing => None,
        Compiled::TooLarge => panic!("too large"),
    }
}

fn read_u32_le(buf: &[u8], off: usize) -> u32 {
    u32::from_le_bytes([buf[off], buf[off + 1], buf[off + 2], buf[off + 3]])
}

/// The columns of the keys of an archive.
fn keyformat(car: &[u8]) -> Vec<u32> {
    let i = car.windows(4).position(|w| w == b"tmfk").expect("tmfk block");
    let n = read_u32_le(car, i + 8) as usize;
    (0..n).map(|k| read_u32_le(car, i + 12 + 4 * k)).collect()
}

fn wishes(app_icon: Option<&str>) -> Wishes {
    Wishes {
        app_icon: app_icon.map(|s| s.to_string()),
        accent_color: None,
        widget_background_color: None,
        standalone_icon: true,
        info_plist: true,
        localizations: true,
    }
}

/// A layer of an icon, in one color.
fn layer(rgba: [u8; 4]) -> Item {
    let set = vec![
        contents(
            r#"{
              "images":[
                {"size":"400x240","idiom":"tv","filename":"Layer@1x.png","scale":"1x"},
                {"size":"400x240","idiom":"tv","filename":"Layer@2x.png","scale":"2x"}
              ],
              "info":{"author":"xcode","version":1}
            }"#,
        ),
        ("Layer@1x.png".to_string(), file(png_of(400, 240, rgba))),
        ("Layer@2x.png".to_string(), file(png_of(800, 480, rgba))),
    ];
    Item::Folder(vec![
        contents(r#"{"info":{"author":"xcode","version":1}}"#),
        ("Content.imageset".to_string(), Item::Folder(set)),
    ])
}

/// An icon of two layers.
fn brand() -> Item {
    let stack = vec![
        contents(
            r#"{
              "layers":[{"filename":"Back.imagestacklayer"},{"filename":"Front.imagestacklayer"}],
              "info":{"author":"xcode","version":1}
            }"#,
        ),
        ("Back.imagestacklayer".to_string(), layer([255, 0, 0, 255])),
        ("Front.imagestacklayer".to_string(), layer([0, 255, 0, 255])),
    ];
    Item::Folder(vec![
        contents(
            r#"{
              "assets":[{"size":"400x240","idiom":"tv","filename":"App Icon.imagestack","role":"primary-app-icon"}],
              "info":{"author":"xcode","version":1}
            }"#,
        ),
        ("App Icon.imagestack".to_string(), Item::Folder(stack)),
    ])
}

fn tv_catalog() -> Item {
    catalog_of(vec![("AppIcon.brandassets".to_string(), brand())])
}

/// The project of an icon, with its pictures: the last layer of each scale hides the
/// others.
fn tv_project(options: &Options) -> Project {
    let mut project = read(tv_catalog(), options);
    let layers = match read_brand(&brand(), "AppIcon", options, &hash) {
        Ok(layers) => layers,
        Err(e) => panic!("cannot read the icon: {e:?}"),
    };
    let mut pictures = Vec::new();
    for scale in list_scales(&layers) {
        let top = layers.iter().rev().find(|r| r.scale == scale).unwrap();
        pictures.push(BrandPicture {
            scale,
            width: top.width,
            height: top.height,
            flattened: top.pixel_data.clone(),
            radiosity: top.pixel_data.clone(),
        });
    }
    add_brand_pictures(&mut project, "AppIcon", pictures, options, &hash);
    project
}

#[test]
fn tvos_brandassets_compiles_with_atv_header() {
    let options = options("appletvos", "17.0", Some("AppIcon"));
    let project = tv_project(&options);
    let folders = vec!["Assets.xcassets/AppIcon.brandassets".to_string()];
    let outputs = list_outputs(&project, true, &folders, "appletvos", &wishes(Some("AppIcon")));
    let car = compile(project, &options).expect("car");
    assert_eq!(keyformat(&car), vec![7, 13, 12, 15, 16, 17, 1, 2]);
    let h = car.windows(4).position(|w| w == b"RATC").expect("RATC block");
    assert_eq!(read_u32_le(&car, h + 4), 972, "tvOS CoreUI version");
    assert_eq!(read_u32_le(&car, h + 432), 1, "tvOS key semantics");
    let m = car.windows(4).position(|w| w == b"META").expect("META block");
    let platform: String = car[m + 516..m + 516 + 8]
        .iter()
        .take_while(|b| **b != 0)
        .map(|b| *b as char)
        .collect();
    assert_eq!(platform, "atv");
    let plist = outputs
        .iter()
        .find_map(|o| if let Output::Plist(text) = o { Some(text.clone()) } else { None })
        .unwrap();
    assert!(plist.contains("<key>CFBundleIcons</key>"));
    assert!(plist.contains("<key>CFBundlePrimaryIcon</key>"));
    assert!(!plist.contains("<key>CFBundleIcons~ipad</key>"));
}

#[test]
fn tvos_brandassets_emits_flattened_and_layer_renditions() {
    let options = options("appletvos", "17.0", Some("AppIcon"));
    let project = tv_project(&options);
    let car = compile(project, &options).expect("car");
    let kf = keyformat(&car);
    let scale_col = kf.iter().position(|t| *t == 12).unwrap();
    let idiom_col = kf.iter().position(|t| *t == 15).unwrap();
    let part_col = kf.iter().position(|t| *t == 2).unwrap();
    let mut flattened_scales = HashSet::new();
    let mut radiosity_scales = HashSet::new();
    let mut layer_count = 0;
    for i in (0..car.len().saturating_sub(kf.len() * 2)).step_by(2) {
        let c: Vec<u16> = (0..kf.len())
            .map(|x| u16::from_le_bytes([car[i + x * 2], car[i + x * 2 + 1]]))
            .collect();
        if c[0] == 0 && c[1] == 0 && c[idiom_col] == 3 {
            if c[part_col] == PART_TVOS_FLATTENED && (c[scale_col] == 1 || c[scale_col] == 2) {
                flattened_scales.insert(c[scale_col]);
            }
            if c[part_col] == PART_TVOS_RADIOSITY && (c[scale_col] == 1 || c[scale_col] == 2) {
                radiosity_scales.insert(c[scale_col]);
            }
            if c[part_col] == PART_REGULAR {
                layer_count += 1;
            }
        }
    }
    assert!(flattened_scales.len() >= 1, "expected at least one tv-idiom flattened rendition");
    assert!(radiosity_scales.len() >= 1, "expected at least one tv-idiom radiosity rendition");
    assert!(layer_count >= 2, "expected at least two tv-idiom layer renditions");
    assert!(flattened_scales.contains(&1), "expected 1x flattened rendition");
    assert!(flattened_scales.contains(&2), "expected 2x flattened rendition");
    assert!(radiosity_scales.contains(&1), "expected 1x radiosity rendition");
    assert!(radiosity_scales.contains(&2), "expected 2x radiosity rendition");
    assert!(
        car.windows("ZZZZRadiosityImage-1.0.0".len()).any(|w| w == b"ZZZZRadiosityImage-1.0.0"),
        "expected 1x radiosity rendition name"
    );
    assert!(
        car.windows("ZZZZRadiosityImage-2.0.0".len()).any(|w| w == b"ZZZZRadiosityImage-2.0.0"),
        "expected 2x radiosity rendition name"
    );
}

#[test]
fn brands_are_read_on_televisions_only() {
    let phone = options("iphoneos", "14.0", Some("AppIcon"));
    assert!(read(tv_catalog(), &phone).renditions.is_empty());
    let other = options("appletvos", "17.0", Some("Other"));
    assert!(read(tv_catalog(), &other).renditions.is_empty());
    let tv = options("appletvos", "17.0", Some("AppIcon"));
    let project = read(tv_catalog(), &tv);
    let scales: Vec<u16> = project.renditions.iter().map(|r| r.scale).collect();
    assert_eq!(scales, vec![1, 2, 1, 2]);
    assert_eq!(list_scales(&project.renditions), vec![1, 2]);
    assert!(project.renditions.iter().all(|r| r.idiom == 3));
    assert_eq!(project.facets.name(0), "App Icon/Back/Content");
    assert_eq!(project.facets.name(1), "App Icon/Front/Content");
}

#[test]
fn broken_brands_are_reported() {
    let tv = options("appletvos", "17.0", Some("AppIcon"));
    let broken = Item::Folder(vec![contents("{")]);
    assert!(read_brand(&broken, "AppIcon", &tv, &hash).is_err());
    let empty = Item::Folder(Vec::new());
    assert!(matches!(read_brand(&empty, "AppIcon", &tv, &hash), Ok(layers) if layers.is_empty()));
    let mut project = read(tv_catalog(), &tv);
    add_brand_pictures(&mut project, "AppIcon", Vec::new(), &tv, &hash);
    assert_eq!(project.renditions.len(), 4);
    assert_eq!(project.facets.len(), 2);
}

#[test]
fn layers_are_drawn_over_each_other() {
    let tv = options("appletvos", "17.0", Some("AppIcon"));
    let mut layers = read(tv_catalog(), &tv).renditions;
    let flat = flatten_layers(&layers, 2).unwrap();
    assert_eq!((flat.width, flat.height), (800, 480));
    assert_eq!(flat.pixels, layers[3].pixel_data);
    assert!(flatten_layers(&layers, 3).is_none());
    for (layer, pixels) in layers.iter_mut().zip([[10, 20], [0, 0], [100, 128], [0, 0]]) {
        layer.pixel_format = *b" 8AG";
        layer.width = 1;
        layer.height = 1;
        layer.pixel_data = pixels.to_vec();
    }
    let flat = flatten_layers(&layers, 1).unwrap();
    assert_eq!(flat.pixels, vec![105, 105, 105, 138]);
}
