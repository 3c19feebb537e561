use serde_json::Value;

use actool::car::{PART_ICON, PART_REGULAR};
use actool::catalog::{list_sizes, AssetCatalog, CatalogError};
use actool::compiler::{plan_catalog, try_compile_catalog, Compiled};
use actool::csi::{build_color_csi, jpeg_dimensions};
use actool::files::{File, Item};
use actool::grouping::group_for_packing;
use actool::json::{Json, Number};
use actool::outputs::{icon_needs_scaling, list_outputs, Output, Wishes};
use actool::plist::LooseIcon;
use actool::project::{check_localizations, pick_languages, read_project, Options, Project};
use actool::rendition::{build_multisize_rendition, MultisizeImageEntry, Rendition};

const LAYOUT_COLOR: u16 = 1009;

fn json(value: &Value) -> Json {
    match value {
        Value::Null => Json::Null,
        Value::Bool(b) => Json::Bool(*b),
        Value::Number(n) => {
            let v = n.as_f64().unwrap();
            Json::Number(Number { double: v.to_bits(), single: (v as f32).to_bits() })
        }
        Value::String(s) => Json::Text(s.clone()),
        Value::Array(a) => Json::List(a.iter().map(json).collect()),
        Value::Object(o) => Json::Object(o.iter().map(|(k, v)| (k.clone(), json(v))).collect()),
    }
}

fn file(data: Vec<u8>) -> Item {
    Item::File(File { data: Some(data), json: None, drawings: Vec::new() })
}

fn contents(text: &str) -> (String, Item) {
    let value: Option<Value> = serde_json::from_str(text).ok();
    let item = Item::File(File {
        data: Some(text.as_bytes().to_vec()),
        json: value.as_ref().map(json),
        drawings: Vec::new(),
    });
    ("Contents.json".to_string(), item)
}

fn png_of(width: u32, height: u32, rgba: [u8; 4]) -> Vec<u8> {
    let img = image::RgbaImage::from_pixel(width, height, image::Rgba(rgba));
    let mut out = std::io::Cursor::new(Vec::new());
    img.write_to(&mut out, image::ImageFormat::Png).unwrap();
    out.into_inner()
}

fn hash(name: &str) -> u16 {
    let mut h: u32 = 0;
    for b in name.bytes() {
        h = h * 31 % 65521 + b as u32;
    }
    (h % 65535 + 1) as u16
}

fn component(text: &str) -> u64 {
    text.parse::<f64>().unwrap_or(0.0).to_bits()
}

/// A catalog with the header that every catalog has.
fn catalog_of(mut entries: Vec<(String, Item)>) -> Item {
    entries.insert(0, contents(r#"{"info":{"author":"xcode","version":1}}"#));
    Item::Folder(entries)
}

/// An image set with a 1x and a 2x image.
fn imageset(name: &str, channels: &str) -> (String, Item) {
    let rgba = match channels {
        "RGBA" => [255, 0, 0, 255],
        "LA" => [128, 128, 128, 255],
        _ => unreachable!(),
    };
    let text = format!(
        r#"{{"images":[
            {{"filename":"{name}.png","idiom":"mac","scale":"1x"}},
            {{"filename":"{name}@2x.png","idiom":"mac","scale":"2x"}}],
            "info":{{"author":"xcode","version":1}}}}"#
    );
    let set = Item::Folder(vec![
        (format!("{name}.png"), file(png_of(16, 16, rgba))),
        (format!("{name}@2x.png"), file(png_of(32, 32, rgba))),
        contents(&text),
    ]);
    (format!("{name}.imageset"), set)
}

fn make_catalog(sets: &[(&str, &str)]) -> Item {
    catalog_of(sets.iter().map(|(name, channels)| imageset(name, channels)).collect())
}

fn options(platform: &str, min_deploy: &str, app_icon: Option<&str>) -> Options {
    Options {
        platform: platform.to_string(),
        min_deploy: min_deploy.to_string(),
        app_icon: app_icon.map(|s| s.to_string()),
        include_languages: None,
        development_region: None,
        draws_svg: false,
    }
}

fn read(catalog: Item, options: &Options) -> Project {
    let sources = vec![("Test.xcassets".to_string(), Some(catalog))];
    match read_project(&sources, options, &hash, &component) {
        Ok(p) => p,
        Err(e) => panic!("cannot read the catalog: {e:?}"),
    }
}

fn compile(project: Project, options: &Options, version: u32) -> Option<Vec<u8>> {
    let out = try_compile_catalog(
        project.renditions,
        &project.facets,
        options.app_icon.is_some(),
        &options.min_deploy,
        &options.platform,
        version,
    );
    match out.expect("the renditions can be stored") {
        Compiled::Archive(bytes) => Some(bytes),
        Compiled::Nothing => None,
        Compiled::TooLarge => panic!("too large"),
    }
}

fn compile_mac(catalog: Item, min_deploy: &str) -> Option<Vec<u8>> {
    let options = options("macosx", min_deploy, None);
    let project = read(catalog, &options);
    compile(project, &options, 972)
}

/// The layout codes of the renditions of an archive, by name.
fn layouts(car: &[u8]) -> Vec<(String, u16)> {
    let mut out = Vec::new();
    let mut pos = 0;
    while let Some(idx) = car[pos..].windows(4).position(|w| w == b"ISTC") {
        pos += idx;
        if pos + 168 > car.len() {
            break;
        }
        let layout = u16::from_le_bytes([car[pos + 36], car[pos + 37]]);
        let bytes = &car[pos + 40..pos + 168];
        let end = bytes.iter().position(|b| *b == 0).unwrap_or(128);
        out.push((String::from_utf8_lossy(&bytes[..end]).to_string(), layout));
        pos += 4;
    }
    out
}

fn layout_of(car: &[u8], name: &str) -> Option<u16> {
    layouts(car).iter().find(|(n, _)| n == name).map(|(_, l)| *l)
}

/// An image set with every idiom, among them the two that iOS image sets drop.
fn mixed_catalog() -> Item {
    let set = Item::Folder(vec![
        ("p1.png".to_string(), file(png_of(10, 10, [255, 0, 0, 255]))),
        ("p2.png".to_string(), file(png_of(20, 20, [0, 255, 0, 255]))),
        ("p3.png".to_string(), file(png_of(30, 30, [0, 0, 255, 255]))),
        contents(
            r#"{
          "images":[
            {"idiom":"iphone","scale":"1x","filename":"p1.png"},
            {"idiom":"iphone","scale":"2x","filename":"p2.png"},
            {"idiom":"iphone","scale":"3x","filename":"p3.png"},
            {"idiom":"ipad","scale":"1x","filename":"p1.png"},
            {"idiom":"ipad","scale":"2x","filename":"p2.png"},
            {"idiom":"mac","scale":"1x","filename":"p1.png"},
            {"idiom":"ios-marketing","scale":"1x","filename":"p1.png"}
          ],
          "info":{"author":"xcode","version":1}
        }"#,
        ),
    ]);
    catalog_of(vec![("Glyph.imageset".to_string(), set)])
}

fn appicon_catalog(entries: &[(&str, &str, &str)]) -> Item {
    let mut set: Vec<(String, Item)> = Vec::new();
    let mut images: Vec<String> = Vec::new();
    for (size, scale, idiom) in entries {
        let pt: f64 = size.split('x').next().unwrap().parse().unwrap();
        let px = (pt * scale[..1].parse::<f64>().unwrap()).round() as u32;
        let name = format!("i{px}.png");
        set.push((name.clone(), file(png_of(px, px, [64, 128, 192, 255]))));
        images.push(format!(
            r#"{{"size":"{size}","idiom":"{idiom}","filename":"{name}","scale":"{scale}"}}"#
        ));
    }
    let text = format!(
        r#"{{"images":[{}],"info":{{"author":"xcode","version":1}}}}"#,
        images.join(",")
    );
    set.push(contents(&text));
    catalog_of(vec![("AppIcon.appiconset".to_string(), Item::Folder(set))])
}

fn wishes(app_icon: Option<&str>) -> Wishes {
    Wishes {
        app_icon: app_icon.map(|s| s.to_string()),
        accent_color: None,
        widget_background_color: None,
        standalone_icon: true,
        info_plist: true,
        localizations: true,
    }
}

fn jpeg_catalog() -> Item {
    let buf: Vec<u8> = vec![
        0xFF, 0xD8, 0xFF, 0xC0, 0x00, 0x0B, 0x08, 0x00, 0x20, 0x00, 0x20, 0x01, 0x01, 0x11, 0x00,
        0xFF, 0xD9,
    ];
    let set = Item::Folder(vec![
        ("photo.jpg".to_string(), file(buf)),
        contents(
            r#"{"images":[{"filename":"photo.jpg","idiom":"mac","scale":"1x"}],"info":{"author":"xcode","version":1}}"#,
        ),
    ]);
    catalog_of(vec![("Photo.imageset".to_string(), set)])
}

#[test]
fn lone_ga8_stored_inline() {
    let catalog = make_catalog(&[("A", "RGBA"), ("B", "RGBA"), ("C", "RGBA"), ("Mono", "LA")]);
    let car = compile_mac(catalog, "11.0").unwrap();
    assert_eq!(layout_of(&car, "Mono.png"), Some(12));
    assert_eq!(layout_of(&car, "Mono@2x.png"), Some(12));
    assert_eq!(layout_of(&car, "A.png"), Some(1003));
}

#[test]
fn single_imageset_stored_inline() {
    let car = compile_mac(make_catalog(&[("Solo", "RGBA")]), "11.0").unwrap();
    assert_eq!(layout_of(&car, "Solo.png"), Some(12));
    assert!(!layouts(&car).iter().any(|(n, _)| n.starts_with("ZZZZ")));
}

#[test]
fn all_same_format_packed() {
    let car = compile_mac(make_catalog(&[("X", "LA"), ("Y", "LA"), ("Z", "LA")]), "11.0").unwrap();
    for name in ["X.png", "Y.png", "Z.png"] {
        assert_eq!(layout_of(&car, name), Some(1003), "{name} should be packed");
    }
}

#[test]
fn two_formats_one_each_both_inline() {
    let car = compile_mac(make_catalog(&[("Color", "RGBA"), ("Gray", "LA")]), "11.0").unwrap();
    assert_eq!(layout_of(&car, "Color.png"), Some(12));
    assert_eq!(layout_of(&car, "Gray.png"), Some(12));
}

#[test]
fn jpeg_stored_in_car_at_11_0() {
    let options = options("macosx", "11.0", None);
    let project = read(jpeg_catalog(), &options);
    assert!(project.loose_jpegs.is_empty());
    let car = compile(project, &options, 972).expect("Assets.car missing");
    let mut pos = 0;
    let mut found = false;
    while let Some(idx) = car[pos..].windows(4).position(|w| w == b"ISTC") {
        pos += idx;
        if &car[pos + 24..pos + 28] == b"GEPJ" {
            found = true;
        }
        pos += 4;
    }
    assert!(found, "GEPJ rendition missing");
}

#[test]
fn jpeg_as_loose_file_at_10_9() {
    let options = options("macosx", "10.9", None);
    let project = read(jpeg_catalog(), &options);
    let outputs = list_outputs(&project, false, &Vec::new(), "macosx", &wishes(None));
    match &outputs[0] {
        Output::Copy { from, to } => {
            assert_eq!(from, "Test.xcassets/Photo.imageset/photo.jpg");
            assert_eq!(to, "Photo.jpg");
        }
        _ => panic!("loose Photo.jpg missing"),
    }
    assert!(compile(project, &options, 972).is_none(), "no CAR expected");
}

#[test]
fn jpeg_dimensions_from_sofn() {
    let data = [
        0xFFu8, 0xD8, 0xFF, 0xC0, 0x00, 0x0B, 0x08, 0x00, 0x20, 0x00, 0x20, 0x01, 0x01, 0x11,
        0x00, 0xFF, 0xD9,
    ];
    assert_eq!(jpeg_dimensions(&data), (32, 32));
}

#[test]
fn jpeg_dimensions_non_jpeg_returns_zero() {
    assert_eq!(jpeg_dimensions(b"not a jpeg"), (0, 0));
    assert_eq!(jpeg_dimensions(&[]), (0, 0));
}

#[test]
fn build_color_csi_layout() {
    let out = build_color_csi(
        "Accent",
        1.0f64.to_bits(),
        0.5f64.to_bits(),
        0.0f64.to_bits(),
        1.0f64.to_bits(),
        1,
    );
    assert_eq!(&out[..4], b"ISTC");
    let layout = u16::from_le_bytes([out[36], out[37]]);
    assert_eq!(layout, LAYOUT_COLOR);
    assert!(out.windows(8).any(|w| w == 0.5f64.to_le_bytes()));
}

#[test]
fn build_multisize_rendition_has_csi_override() {
    let r = build_multisize_rendition(
        "AppIcon",
        7,
        &[MultisizeImageEntry { width: 16, height: 16, index: 0 }],
    );
    assert!(r.csi_override.is_some());
    let csi = r.csi_override.as_ref().unwrap();
    assert!(csi.windows(4).any(|w| w == b"SISM"));
}

#[test]
fn catalog_parse_does_not_crash() {
    let root = appicon_catalog(&[("16x16", "1x", "mac"), ("16x16", "2x", "mac")]);
    let mut catalog = AssetCatalog::new(
        "Test.xcassets".to_string(),
        "macosx".to_string(),
        "11.0".to_string(),
        Some("AppIcon".to_string()),
        None,
        None,
        false,
    );
    let (renditions, facets) = match catalog.parse(Some(&root), &hash, &component) {
        Ok(found) => found,
        Err(e) => panic!("parse: {e:?}"),
    };
    assert!(!renditions.is_empty(), "expected renditions");
    assert!(facets.len() > 0, "expected facets");
    assert!(facets.find("AppIcon").is_some());
}

#[test]
fn mac_imagesets_have_no_idiom() {
    let options = options("macosx", "11.0", None);
    let project = read(mixed_catalog(), &options);
    let idioms: Vec<u16> = project.renditions.iter().map(|r| r.idiom).collect();
    assert_eq!(idioms, vec![0]);
}

#[test]
fn missing_catalogs_are_reported() {
    let options = options("macosx", "11.0", None);
    let sources = vec![("None.xcassets".to_string(), None)];
    assert!(matches!(
        read_project(&sources, &options, &hash, &component),
        Err(CatalogError::NotFound)
    ));
}

#[test]
fn broken_sets_are_reported() {
    let options = options("macosx", "11.0", None);
    let broken = |set: Vec<(String, Item)>| {
        let catalog = catalog_of(vec![("S.imageset".to_string(), Item::Folder(set))]);
        let sources = vec![("T".to_string(), Some(catalog))];
        read_project(&sources, &options, &hash, &component).err()
    };
    assert_eq!(broken(vec![contents("{")]), Some(CatalogError::BadJson));
    let listed = r#"{"images":[{"filename":"a.png"}]}"#;
    assert_eq!(
        broken(vec![contents(listed), ("a.png".to_string(), file(vec![1, 2]))]),
        Some(CatalogError::BadImage)
    );
    let unreadable = Item::File(File { data: None, json: None, drawings: Vec::new() });
    assert_eq!(
        broken(vec![contents(listed), ("a.png".to_string(), unreadable)]),
        Some(CatalogError::Unreadable)
    );
    // A set that lists a file that is not there is just empty.
    assert_eq!(broken(vec![contents(listed)]), None);
}

#[test]
fn undrawn_documents_are_reported() {
    let mut options = options("macosx", "11.0", None);
    options.draws_svg = true;
    let set = Item::Folder(vec![
        contents(r#"{"images":[{"filename":"a.svg"}]}"#),
        ("a.svg".to_string(), file(b"<svg width=\"4\" height=\"4\"></svg>".to_vec())),
    ]);
    let catalog = catalog_of(vec![("S.imageset".to_string(), set)]);
    let sources = vec![("T".to_string(), Some(catalog))];
    assert!(matches!(
        read_project(&sources, &options, &hash, &component),
        Err(CatalogError::NotDrawn)
    ));
}

#[test]
fn the_first_catalog_wins() {
    let options = options("macosx", "11.0", None);
    let sources = vec![
        ("A".to_string(), Some(make_catalog(&[("X", "RGBA"), ("Y", "RGBA")]))),
        ("B".to_string(), Some(make_catalog(&[("Y", "LA"), ("Z", "LA")]))),
    ];
    let project = match read_project(&sources, &options, &hash, &component) {
        Ok(p) => p,
        Err(e) => panic!("{e:?}"),
    };
    let names: Vec<String> =
        (0..project.facets.len()).map(|i| project.facets.name(i).to_string()).collect();
    assert_eq!(names, vec!["X", "Y", "Z"]);
    assert_eq!(project.renditions.len(), 8);
}

#[test]
fn every_rendition_is_grouped_or_kept() {
    let options = options("macosx", "11.0", None);
    let project =
        read(make_catalog(&[("A", "RGBA"), ("B", "RGBA"), ("Mono", "LA")]), &options);
    let (groups, own) = group_for_packing(&project.renditions);
    let mut all: Vec<usize> = own.clone();
    for g in &groups {
        all.extend_from_slice(&g.members);
    }
    all.sort();
    let expected: Vec<usize> = (0..project.renditions.len()).collect();
    assert_eq!(all, expected);
    assert_eq!(own.len(), 2);
}

#[test]
fn languages_are_filtered_and_listed() {
    let set = Item::Folder(vec![
        contents(
            r#"{"images":[
                {"filename":"a.png","locale":"fr"},
                {"filename":"a.png","locale":"de"},
                {"filename":"a.png"}]}"#,
        ),
        ("a.png".to_string(), file(png_of(4, 4, [1, 2, 3, 255]))),
    ]);
    let mut options = options("macosx", "11.0", None);
    options.include_languages = Some(vec!["fr".to_string()]);
    let project = read(catalog_of(vec![("S.imageset".to_string(), set)]), &options);
    assert_eq!(project.renditions.len(), 2);
    assert_eq!(project.locales, vec!["fr"]);
    let outputs = list_outputs(&project, false, &Vec::new(), "macosx", &wishes(None));
    match outputs.last() {
        Some(Output::Plist(text)) => assert!(text.contains("<string>fr</string>")),
        _ => panic!("expected a property list"),
    }
}

#[test]
fn arguments_name_languages() {
    let none = vec!["".to_string()];
    assert!(pick_languages(&none).is_none());
    let some = vec!["".to_string(), "en".to_string(), "de".to_string()];
    assert_eq!(pick_languages(&some), Some(vec!["en".to_string(), "de".to_string()]));
    assert!(!check_localizations("no"));
    assert!(!check_localizations("NO"));
    assert!(check_localizations("YES"));
    assert!(check_localizations("NOT"));
}

#[test]
fn sizes_are_listed_once() {
    let sizes = list_sizes(&vec![32, 16, 32, 512]);
    let listed: Vec<(u32, u32)> = sizes.iter().map(|e| (e.width, e.index)).collect();
    assert_eq!(listed, vec![(32, 2), (16, 1), (512, 5)]);
}

#[test]
fn compile_reference_catalog_without_icon() {
    let options = options("macosx", "11.0", None);
    let project = read(make_catalog(&[("A", "RGBA")]), &options);
    let mut none = wishes(None);
    none.info_plist = false;
    let outputs = list_outputs(&project, true, &Vec::new(), "macosx", &none);
    assert!(outputs.iter().any(|o| matches!(o, Output::Archive)));
    assert!(!outputs.iter().any(|o| matches!(o, Output::IconFile(_))));
    assert!(!outputs.iter().any(|o| matches!(o, Output::Plist(_))));
}

#[test]
fn mac_icons_get_an_icon_file() {
    let options = options("macosx", "11.0", Some("AppIcon"));
    let project = read(appicon_catalog(&[("16x16", "1x", "mac"), ("32x32", "2x", "mac")]), &options);
    assert_eq!(project.icon_files.len(), 2);
    assert_eq!(project.icon_files[1].1, 64);
    let outputs = list_outputs(&project, true, &Vec::new(), "macosx", &wishes(Some("AppIcon")));
    assert!(matches!(&outputs[0], Output::IconFile(name) if name == "AppIcon.icns"));
    assert!(matches!(&outputs[1], Output::Archive));
    let mut without = wishes(Some("AppIcon"));
    without.standalone_icon = false;
    let outputs = list_outputs(&project, true, &Vec::new(), "macosx", &without);
    assert!(matches!(&outputs[0], Output::Archive));
}

#[test]
fn brand_folders_are_copied_on_tv() {
    let project = read(make_catalog(&[]), &options("appletvos", "17.0", Some("AppIcon")));
    let folders = vec!["Assets.xcassets/AppIcon.brandassets".to_string()];
    let outputs = list_outputs(&project, true, &folders, "appletvos", &wishes(Some("AppIcon")));
    assert!(matches!(&outputs[0], Output::Archive));
    match &outputs[1] {
        Output::Folder { from, to } => {
            assert_eq!(from, &folders[0]);
            assert_eq!(to, "AppIcon.brandassets");
        }
        _ => panic!("expected a folder"),
    }
    match &outputs[2] {
        Output::Plist(text) => {
            assert!(text.contains("<key>CFBundlePrimaryIcon</key>"));
            assert!(!text.contains("<key>CFBundleIcons~ipad</key>"));
        }
        _ => panic!("expected a property list"),
    }
}

#[test]
fn icons_of_another_size_are_scaled() {
    let icon = LooseIcon {
        filename: "AppIcon60x60@2x.png".to_string(),
        src: "i.png".to_string(),
        point_w: 60,
        scale: 2,
    };
    assert!(!icon_needs_scaling(&icon, &png_of(120, 120, [1, 2, 3, 255])));
    assert!(icon_needs_scaling(&icon, &png_of(1024, 1024, [1, 2, 3, 255])));
    assert!(!icon_needs_scaling(&icon, b"no image"));
}

#[test]
fn colors_and_data_are_stored() {
    let color = Item::Folder(vec![contents(
        r#"{"colors":[{"idiom":"universal","color":{"color-space":"srgb",
            "components":{"red":"0.25","green":"0.5","blue":"0.75","alpha":"1.0"}}}]}"#,
    )]);
    let data = Item::Folder(vec![
        contents(r#"{"data":[{"idiom":"universal","filename":"d.bin"}]}"#),
        ("d.bin".to_string(), file(b"payload of the set".to_vec())),
    ]);
    let catalog = catalog_of(vec![
        ("Accent.colorset".to_string(), color),
        ("Blob.dataset".to_string(), data),
    ]);
    let car = compile_mac(catalog, "11.0").unwrap();
    assert!(car.windows(18).any(|w| w == b"payload of the set"));
    assert!(car.windows(8).any(|w| w == 0.25f64.to_le_bytes()));
    assert!(car.windows(6).any(|w| w == b"Accent"));
}

#[test]
fn groups_give_namespaces() {
    let (name, set) = imageset("Leaf", "RGBA");
    let group = Item::Folder(vec![
        contents(r#"{"properties":{"provides-namespace":true}}"#),
        (name, set),
    ]);
    let (name, set) = imageset("Plain", "RGBA");
    let open = Item::Folder(vec![contents("{}"), (name, set)]);
    let catalog =
        catalog_of(vec![("Tree".to_string(), group), ("Open".to_string(), open)]);
    let project = read(catalog, &options("macosx", "11.0", None));
    let mut names: Vec<String> =
        (0..project.facets.len()).map(|i| project.facets.name(i).to_string()).collect();
    names.sort();
    assert_eq!(names, vec!["Plain", "Tree/Leaf"]);
}

#[test]
fn incomplete_renditions_cannot_be_stored() {
    let mut r = Rendition::default();
    r.width = 100;
    r.height = 100;
    r.pixel_format = *b"BGRA";
    r.pixel_data = vec![1, 2, 3, 4];
    let facets = actool::facets::FacetTable::new();
    assert!(try_compile_catalog(vec![r], &facets, false, "11.0", "macosx", 972).is_none());
}

#[test]
fn icons_do_not_share_groups_with_images() {
    let mut renditions = Vec::new();
    for (identifier, part) in [(1, PART_ICON), (2, PART_REGULAR), (3, PART_REGULAR)] {
        let mut r = Rendition::default();
        r.identifier = identifier;
        r.part = part;
        r.width = 16;
        r.height = 16;
        r.pixel_data = vec![0; 16 * 16 * 4];
        renditions.push(r);
    }
    let (groups, inline) = group_for_packing(&renditions);
    assert_eq!(groups.len(), 1);
    assert_eq!(groups[0].members, vec![1, 2]);
    assert!(!groups[0].of_icons);
    assert_eq!(inline, vec![0]);
}

#[test]
fn pixels_need_not_be_complete_where_nothing_looks_at_them() {
    let mut r = Rendition::default();
    r.width = 16;
    r.height = 16;
    r.pixel_format = *b"BGRA";
    r.min_deploy = "11.0".to_string();
    r.pixel_data = vec![0; 16 * 16 * 2];
    assert!(r.is_storable());
    r.pixel_data = vec![255; 16 * 16 * 2];
    assert!(!r.is_storable());
    r.force_non_opaque = true;
    assert!(r.is_storable());
    r.min_deploy = "10.9".to_string();
    assert!(!r.is_storable());
}

fn small_image(name: &str, identifier: u16, scale: u16, sprite_atlas_id: u16) -> Rendition {
    let mut r = Rendition::default();
    r.name = name.to_string();
    r.identifier = identifier;
    r.width = 4;
    r.height = 4;
    r.pixel_data = [200, 100, 50, 255].repeat(16);
    r.pixel_format = *b"BGRA";
    r.scale = scale;
    r.sprite_atlas_id = sprite_atlas_id;
    r
}

#[test]
fn sheets_carry_what_their_images_share() {
    let images: Vec<Rendition> = [(1, 0), (1, 0), (2, 0), (2, 0), (2, 9), (2, 9)]
        .iter()
        .enumerate()
        .map(|(k, (scale, atlas))| small_image(&format!("i{k}.png"), 10 + k as u16, *scale, *atlas))
        .collect();
    let plan = plan_catalog(&images, "11.0", "macosx");
    let mut sheets: Vec<(u16, u16, usize)> = plan
        .sheets
        .iter()
        .map(|s| (s.scale, s.sprite_atlas_id, s.atlas.images.len()))
        .collect();
    sheets.sort();
    assert_eq!(sheets, vec![(1, 0, 2), (2, 0, 2), (2, 9, 2)]);
    assert!(plan.sheets.iter().all(|s| s.idiom == 0));
    assert!(plan.inline.is_empty());
}

#[test]
fn renditions_are_compiled_for_the_target_of_the_catalog() {
    let facets = actool::facets::FacetTable::new();
    let compile = |min_deploy: &str, platform: &str| {
        let mut r = small_image("i.png", 10, 1, 0);
        r.min_deploy = min_deploy.to_string();
        r.platform = platform.to_string();
        match try_compile_catalog(vec![r], &facets, false, "11.0", "macosx", 972) {
            Some(Compiled::Archive(file)) => file,
            _ => panic!("no archive"),
        }
    };
    let file = compile("11.0", "macosx");
    assert_eq!(compile("", ""), file);
    assert_eq!(compile("8.0", "iphoneos"), file);
}
