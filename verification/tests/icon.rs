use std::collections::{HashMap, HashSet};

use serde_json::Value;

use actool::icon_bundle::{
    bundle_facet_prefix, collect_layer_assets, collect_stack_layers, find_all_source_images,
    group_facet_names, is_icon_bundle, layer_native_size, plan_icon, resolve_background_fills,
    validate_layer_image_refs, Background, IconError,
};
use actool::icon_car::{build_icon_car, make_icon_list, store_icon_list};
use actool::icon_effects::{
    parse_blend, resolve_icon_effects, Appearance, BlendMode, Lighting, ShadowKind,
};
use actool::icon_json::{
    Fill, Group, IconJson, Layer, PlatformList, Position, Shadow, SupportedPlatforms, Translucency,
};
use actool::icon_names::{deterministic_uuid, pre_rendered_name};
use actool::icon_renditions::macos_icon_size;
use actool::files::{File, Item};
use actool::json::{Json, Number};
use actool::outputs::{list_icon_outputs, Output};
use actool::plist::make_icon_plist;
use actool::palette::{
    divide_single, fill_assets, fill_specializations_assets, parse_color_spec, Palette,
};

fn json(value: &Value) -> Json {
    match value {
        Value::Null => Json::Null,
        Value::Bool(b) => Json::Bool(*b),
        Value::Number(n) => {
            let v = n.as_f64().unwrap();
            Json::Number(Number { double: v.to_bits(), single: (v as f32).to_bits() })
        }
        Value::String(s) => Json::Text(s.clone()),
        Value::Array(a) => Json::List(a.iter().map(json).collect()),
        Value::Object(o) => Json::Object(o.iter().map(|(k, v)| (k.clone(), json(v))).collect()),
    }
}

fn parse(text: &str) -> Value {
    serde_json::from_str(text).unwrap()
}

fn text(value: &Value, key: &str) -> Option<String> {
    value.get(key).and_then(|v| v.as_str()).map(|s| s.to_string())
}

fn flag(value: &Value, key: &str) -> Option<bool> {
    value.get(key).and_then(|v| v.as_bool())
}

fn single(value: &Value, key: &str) -> Option<u32> {
    value.get(key).and_then(|v| v.as_f64()).map(|v| (v as f32).to_bits())
}

fn list(value: &Value, key: &str) -> Option<Vec<Json>> {
    value.get(key).and_then(|v| v.as_array()).map(|a| a.iter().map(json).collect())
}

fn fill(value: &Value) -> Option<Fill> {
    match value.get("fill") {
        None => None,
        Some(Value::Null) => None,
        Some(Value::String(s)) => Some(Fill::Keyword(s.clone())),
        Some(other) => Some(Fill::Structured(json(other))),
    }
}

fn position(value: &Value) -> Option<Position> {
    value.get("position").map(|p| Position {
        scale: single(p, "scale"),
        translation_in_points: p.get("translation-in-points").and_then(|t| t.as_array()).map(|t| {
            [
                (t[0].as_f64().unwrap() as f32).to_bits(),
                (t[1].as_f64().unwrap() as f32).to_bits(),
            ]
        }),
    })
}

fn layer(value: &Value) -> Layer {
    Layer {
        name: text(value, "name"),
        image_name: text(value, "image-name"),
        glass: flag(value, "glass"),
        hidden: flag(value, "hidden"),
        position: position(value),
        fill: fill(value),
        opacity_specializations: list(value, "opacity-specializations"),
        blend_mode_specializations: list(value, "blend-mode-specializations"),
        hidden_specializations: list(value, "hidden-specializations"),
        glass_specializations: list(value, "glass-specializations"),
        fill_specializations: list(value, "fill-specializations"),
    }
}

fn group(value: &Value) -> Group {
    Group {
        name: text(value, "name"),
        hidden: flag(value, "hidden"),
        layers: value
            .get("layers")
            .and_then(|v| v.as_array())
            .map(|a| a.iter().map(layer).collect())
            .unwrap_or_default(),
        position: position(value),
        shadow: value
            .get("shadow")
            .map(|s| Shadow { kind: text(s, "kind").unwrap(), opacity: single(s, "opacity") }),
        shadow_specializations: list(value, "shadow-specializations"),
        translucency: value
            .get("translucency")
            .map(|t| Translucency { enabled: flag(t, "enabled"), value: single(t, "value") }),
        translucency_specializations: list(value, "translucency-specializations"),
        specular: flag(value, "specular"),
        specular_specializations: list(value, "specular-specializations"),
        blur_material: value.get("blur-material").map(json),
        blur_material_specializations: list(value, "blur-material-specializations"),
        lighting_specializations: list(value, "lighting-specializations"),
        blend_mode_specializations: list(value, "blend-mode-specializations"),
    }
}

fn platforms(value: &Value, key: &str) -> Option<PlatformList> {
    match value.get(key) {
        Some(Value::String(s)) => Some(PlatformList::Shared(s.clone())),
        Some(Value::Array(a)) => Some(PlatformList::Explicit(
            a.iter().map(|v| v.as_str().unwrap().to_string()).collect(),
        )),
        _ => None,
    }
}

fn icon(source: &str) -> IconJson {
    let value = parse(source);
    IconJson {
        fill: fill(&value),
        fill_specializations: list(&value, "fill-specializations"),
        groups: value
            .get("groups")
            .and_then(|v| v.as_array())
            .map(|a| a.iter().map(group).collect())
            .unwrap_or_default(),
        supported_platforms: value.get("supported-platforms").map(|p| SupportedPlatforms {
            squares: platforms(p, "squares"),
            circles: platforms(p, "circles"),
        }),
        color_space_for_untagged_svg_colors: text(&value, "color-space-for-untagged-svg-colors"),
    }
}

/// A component of a color: three decimal places, in single precision.
fn component(text: &str) -> Option<u64> {
    let v = text.trim().parse::<f64>().ok()?;
    Some((((v * 1000.0).round() / 1000.0) as f32 as f64).to_bits())
}

fn hash(name: &str) -> u16 {
    let mut h: u32 = 0;
    for b in name.bytes() {
        h = h * 31 % 65521 + b as u32;
    }
    (h % 65535 + 1) as u16
}

fn palette(source: &str) -> Palette {
    fill_specializations_assets("X", &icon(source), &component)
}

fn file(data: Vec<u8>) -> Item {
    Item::File(File { data: Some(data), json: None, drawings: Vec::new() })
}

fn folder(entries: Vec<(&str, Item)>) -> Item {
    Item::Folder(entries.into_iter().map(|(n, i)| (n.to_string(), i)).collect())
}

fn png_of(width: u32, height: u32, rgba: [u8; 4]) -> Vec<u8> {
    let img = image::RgbaImage::from_pixel(width, height, image::Rgba(rgba));
    let mut out = std::io::Cursor::new(Vec::new());
    img.write_to(&mut out, image::ImageFormat::Png).unwrap();
    out.into_inner()
}

#[test]
fn pre_rendered_name_matches_apple_pattern() {
    let n = pre_rendered_name("feishin", 16, 2, "NSAppearanceNameSystem");
    assert!(n.starts_with("feishin16x16_NSAppearanceNameSystem_"));
    assert!(n.ends_with(".png"));
    let body = n
        .trim_start_matches("feishin16x16_NSAppearanceNameSystem_")
        .trim_end_matches(".png");
    let parts: Vec<&str> = body.split('-').collect();
    assert_eq!(parts.len(), 7, "expected UUID-PID-HEX shape, got {n:?}");
}

#[test]
fn pre_rendered_name_is_deterministic() {
    let a = pre_rendered_name("Icon", 32, 2, "NSAppearanceNameSystem");
    let b = pre_rendered_name("Icon", 32, 2, "NSAppearanceNameSystem");
    assert_eq!(a, b);
}

#[test]
fn pre_rendered_name_differs_by_size_and_scale() {
    let a = pre_rendered_name("Icon", 32, 1, "NSAppearanceNameSystem");
    let b = pre_rendered_name("Icon", 32, 2, "NSAppearanceNameSystem");
    let c = pre_rendered_name("Icon", 64, 2, "NSAppearanceNameSystem");
    assert_ne!(a, b);
    assert_ne!(b, c);
}

#[test]
fn uuids_have_five_parts() {
    let uuid = deterministic_uuid(&["a", "b"]);
    let lengths: Vec<usize> = uuid.split('-').map(|p| p.len()).collect();
    assert_eq!(lengths, vec![8, 4, 4, 4, 12]);
    assert_ne!(uuid, deterministic_uuid(&["a", "c"]));
}

#[test]
fn fill_specializations_feishin_palette() {
    let p = palette(
        r#"{
          "fill-specializations":[
            {"value":{"linear-gradient":[
                "display-p3:0.87416,0.87416,0.87416,1.0",
                "display-p3:0.99575,0.99575,0.99575,1.0"],
              "orientation":{"start":{"x":0.5,"y":1},"stop":{"x":0.5,"y":0.3}}}},
            {"appearance":"dark","value":"system-dark"}
          ],
          "groups":[{"layers":[{"image-name":"f.svg","name":"f",
            "fill-specializations":[
              {"value":{"solid":"extended-gray:0.0,1.0"}},
              {"appearance":"dark","value":{"linear-gradient":[
                  "display-p3:0.78674,0.78674,0.78674,1.0",
                  "display-p3:0.87416,0.87416,0.87416,1.0"],
                "orientation":{"start":{"x":0.5,"y":1},"stop":{"x":0.5,"y":0}}}},
              {"appearance":"tinted","value":{"solid":"gray:1.0,1.0"}}
            ]}]}]
        }"#,
    );
    assert_eq!(p.colors.len(), 8, "feishin should have 8 colors");
    assert_eq!(p.gradients.len(), 3, "feishin should have 3 gradients");
    let cs: Vec<u32> = p.colors.iter().map(|c| c.colorspace_id).collect();
    assert_eq!(cs, vec![6, 3, 3, 2, 2, 6, 3, 2]);
    assert_eq!(p.gradients[2].stops[0].color, "X_Assets/Color-7");
    assert_eq!(p.gradients[2].stops[1].color, "X_Assets/Color-2");
    let geometry: Vec<f32> =
        p.gradients[0].geometry.iter().map(|b| f32::from_bits(*b)).collect();
    assert_eq!(geometry, vec![0.5, 1.0, 0.5, 0.3]);
}

#[test]
fn fill_specializations_scrumdinger_palette() {
    let p = palette(
        r#"{
          "fill-specializations":[
            {"value":"system-light"},
            {"appearance":"dark","value":"automatic"}
          ],
          "groups":[{"layers":[{"image-name":"1.png","name":"1",
            "fill-specializations":[{"appearance":"dark","value":"automatic"}]}]}]
        }"#,
    );
    assert_eq!(p.colors.len(), 5, "scrumdinger should have 5 colors");
    assert_eq!(p.gradients.len(), 2, "redundant layer automatic must dedup");
    let cs: Vec<u32> = p.colors.iter().map(|c| c.colorspace_id).collect();
    assert_eq!(cs, vec![6, 2, 2, 2, 2]);
}

#[test]
fn feishin_resolves_per_appearance() {
    let i = icon(
        r#"{"groups":[{"layers":[{"image-name":"f.svg","name":"f",
            "glass-specializations":[{"value":true},{"appearance":"dark","value":true}]}],
          "shadow-specializations":[{"value":{"kind":"neutral","opacity":1}},
            {"appearance":"dark","value":{"kind":"layer-color","opacity":0.5}}],
          "specular-specializations":[{"value":false},{"appearance":"tinted","value":true}],
          "translucency-specializations":[{"value":{"enabled":true,"value":0.29}},
            {"appearance":"dark","value":{"enabled":false,"value":0.29}}],
          "blur-material-specializations":[{"value":0.7},{"appearance":"tinted","value":null}],
          "lighting-specializations":[{"value":"individual"},{"appearance":"tinted","value":"combined"}]
        }]}"#,
    );
    let g = &i.groups[0];
    let light = resolve_icon_effects(g, Appearance::Light);
    assert_eq!(light.shadow.kind, ShadowKind::Neutral);
    assert_eq!(f32::from_bits(light.shadow.opacity), 1.0);
    assert!(!light.specular);
    assert!(light.translucency.enabled);
    assert_eq!(light.blur_material.map(f32::from_bits), Some(0.7));
    assert_eq!(light.lighting, Lighting::Individual);
    assert!(light.layers[0].glass);

    let dark = resolve_icon_effects(g, Appearance::Dark);
    assert_eq!(dark.shadow.kind, ShadowKind::LayerColor);
    assert_eq!(f32::from_bits(dark.shadow.opacity), 0.5);
    assert!(!dark.translucency.enabled);

    let tinted = resolve_icon_effects(g, Appearance::Tinted);
    assert!(tinted.specular, "tinted overrides specular to true");
    assert_eq!(tinted.blur_material, None, "tinted disables blur (null)");
    assert_eq!(tinted.lighting, Lighting::Combined);
}

#[test]
fn plain_fields_resolve_without_specializations() {
    let i = icon(
        r#"{"groups":[{"layers":[{"image-name":"e.png","name":"e","glass":false}],
          "shadow":{"kind":"none","opacity":0.5},"specular":false,
          "translucency":{"enabled":false,"value":0.5}}]}"#,
    );
    let g = &i.groups[0];
    let e = resolve_icon_effects(g, Appearance::Light);
    assert_eq!(e.shadow.kind, ShadowKind::Absent);
    assert!(!e.specular);
    assert!(!e.translucency.enabled);
    assert!(!e.layers[0].glass);
    let d = resolve_icon_effects(g, Appearance::Dark);
    assert_eq!(d.shadow.kind, ShadowKind::Absent);
}

#[test]
fn parses_element_web_style() {
    let j = icon(
        r#"{
        "fill": "automatic",
        "groups": [{
            "name": "Figma",
            "layers": [{"glass": false, "image-name": "element.png", "name": "element"}],
            "shadow": {"kind": "none", "opacity": 0.5},
            "specular": false,
            "translucency": {"enabled": false, "value": 0.5}
        }],
        "supported-platforms": {"squares": ["macOS"]}
    }"#,
    );
    assert_eq!(j.groups.len(), 1);
    assert_eq!(j.groups[0].name.as_deref(), Some("Figma"));
    assert_eq!(j.groups[0].layers.len(), 1);
    assert_eq!(j.groups[0].layers[0].image_name.as_deref(), Some("element.png"));
    assert_eq!(j.groups[0].layers[0].glass, Some(false));
    assert_eq!(j.groups[0].shadow.as_ref().unwrap().kind, "none");
    let sp = j.supported_platforms.unwrap();
    assert_eq!(sp.squares.unwrap().as_slice(), &["macOS".to_string()]);
}

#[test]
fn parses_supported_platforms_shared_string() {
    let j = icon(
        r#"{
        "groups": [],
        "supported-platforms": {"squares": "shared", "circles": ["watchOS"]}
    }"#,
    );
    let sp = j.supported_platforms.unwrap();
    let sq = sp.squares.unwrap();
    assert!(sq.is_shared());
    assert!(sq.as_slice().is_empty());
    let circ = sp.circles.unwrap();
    assert_eq!(circ.as_slice(), &["watchOS".to_string()]);
}

#[test]
fn parses_gradient_fill_and_specializations() {
    let j = icon(
        r#"{
        "fill": {"linear-gradient": ["srgb:1,0,0,1", "srgb:0,0,1,1"]},
        "groups": [{
            "layers": [{
                "glass": true,
                "image-name": "Overlay.svg",
                "name": "Overlay",
                "fill-specializations": [
                    {"appearance": "tinted", "value": {"linear-gradient": ["gray:0.9,1", "extended-gray:0.75,1"]}}
                ]
            }],
            "shadow": {"kind": "layer-color"},
            "translucency": {"enabled": true, "value": 0.2}
        }]
    }"#,
    );
    assert!(matches!(j.fill, Some(Fill::Structured(_))));
    let layer = &j.groups[0].layers[0];
    assert_eq!(layer.glass, Some(true));
    assert!(layer.fill_specializations.is_some());
}

#[test]
fn unknown_fields_are_ignored() {
    let j = icon(r#"{"future-field": 42, "groups": []}"#);
    assert!(j.groups.is_empty());
}

#[test]
fn iter_layers_visits_each_layer() {
    let j = icon(
        r#"{
        "groups": [
            {"layers": [{"name": "a"}, {"name": "b"}]},
            {"layers": [{"name": "c"}]}
        ]
    }"#,
    );
    let names: Vec<_> =
        j.iter_layers().into_iter().map(|(_, l)| l.name.clone().unwrap()).collect();
    assert_eq!(names, vec!["a", "b", "c"]);
}

#[test]
fn automatic_fill_has_five_colors_and_two_gradients() {
    let p = fill_assets("icon", &icon(r#"{"fill":"automatic","groups":[]}"#), &component).unwrap();
    assert_eq!(p.colors.len(), 5);
    assert_eq!(p.gradients.len(), 2);
    assert_eq!(p.colors[0].facet_name, "icon_Assets/Color-1");
    assert_eq!(f64::from_bits(p.colors[2].components[0]), 0.925f32 as f64);
    assert_eq!(p.gradients[1].stops[1].color, "icon_Assets/Color-5");
    let absent = fill_assets("icon", &icon(r#"{"groups":[]}"#), &component).unwrap();
    assert_eq!(absent.colors.len(), 5);
}

#[test]
fn solid_fill_has_four_colors_and_one_gradient() {
    let i = icon(r#"{"fill":{"solid":"srgb:0.2,0.4,0.6,1.0"},"groups":[]}"#);
    let p = fill_assets("icon", &i, &component).unwrap();
    assert_eq!(p.colors.len(), 4);
    assert_eq!(p.gradients.len(), 1);
    let user: Vec<f64> = vec![0.2, 0.4, 0.6, 1.0];
    let found = p.colors.iter().any(|c| {
        c.components.len() == 4
            && c.components.iter().zip(&user).all(|(b, v)| f64::from_bits(*b) == *v as f32 as f64)
    });
    assert!(found, "the color of the user is in the palette");
}

#[test]
fn color_specs_are_read() {
    let (space, parts) = parse_color_spec("extended-gray:0.84536,1.0", &component).unwrap();
    assert_eq!(space, 6);
    assert_eq!(f64::from_bits(parts[0]), 0.845f32 as f64);
    assert!(parse_color_spec("no colon", &component).is_none());
    assert!(parse_color_spec("srgb:0.1,x,0.3,1", &component).is_none());
}

#[test]
fn stops_are_spread_in_single_precision() {
    for n in 1..20usize {
        for i in 0..=n {
            let expected = i as f32 / n as f32;
            assert_eq!(f32::from_bits(divide_single(i, n)), expected, "{i}/{n}");
        }
    }
}

#[test]
fn solid_fill_is_the_light_background() {
    let i = icon(r#"{"fill":{"solid":"gray:0.5,1.0"},"groups":[]}"#);
    let p = fill_assets("icon", &i, &component).unwrap();
    let (light, dark) = resolve_background_fills(&i, &p, &component);
    let half = 0.5f64.to_bits();
    match light {
        Some(Background::Flat(rgb)) => assert_eq!(rgb, [half, half, half]),
        _ => panic!("expected a flat background"),
    }
    assert!(matches!(dark, Some(Background::Gradient(_, _, _))));
}

#[test]
fn bundles_are_known_by_their_extension() {
    assert!(is_icon_bundle("/tmp/App.icon"));
    assert!(!is_icon_bundle("/tmp/App.xcassets"));
    assert_eq!(bundle_facet_prefix("/tmp/My App.icon"), "My App");
}

#[test]
fn anonymous_groups_are_numbered() {
    let i = icon(r#"{"groups":[{"layers":[]},{"name":"Front","layers":[]},{"layers":[]}]}"#);
    assert_eq!(group_facet_names(&i, "I"), vec!["I/Group", "I/Front", "I/Group 2"]);
}

#[test]
fn layers_without_images_are_refused() {
    let bundle = folder(vec![("Assets", folder(vec![("a.png", file(vec![1]))]))]);
    let missing = json(&parse(r#"{"groups":[{"layers":[{"name":"L"}]}]}"#));
    let error = validate_layer_image_refs(&bundle, &missing).unwrap_err();
    assert_eq!(error.message(), "the layer \"L\" does not have an image name");
    let absent = json(&parse(r#"{"groups":[{"layers":[{"image-name":"b.png"}]}]}"#));
    let error = validate_layer_image_refs(&bundle, &absent).unwrap_err();
    assert_eq!(
        error.message(),
        "the layer \"(unnamed)\" references an image named \"b.png\" that does not exist"
    );
    let fine = json(&parse(r#"{"groups":[{"layers":[{"image-name":"a.png"}]}]}"#));
    assert!(validate_layer_image_refs(&bundle, &fine).is_ok());
    assert_eq!(find_all_source_images(&bundle, &fine), vec!["Assets/a.png"]);
}

#[test]
fn layer_assets_are_listed_once() {
    let bundle = folder(vec![
        ("Assets", folder(vec![("a.png", file(vec![1]))])),
        ("b.svg", file(vec![2])),
    ]);
    let i = icon(
        r#"{"groups":[{"layers":[
            {"image-name":"a.png"},{"image-name":"b.svg"},{"image-name":"a.png"},
            {"image-name":"c.png"},{"name":"none"}]}]}"#,
    );
    let assets = collect_layer_assets(&bundle, &i, "I");
    let names: Vec<&str> = assets.iter().map(|a| a.facet_name.as_str()).collect();
    assert_eq!(names, vec!["I_Assets/a", "I_Assets/b"]);
    assert_eq!(assets[0].source_path, "Assets/a.png");
    assert_eq!(assets[1].source_path, "b.svg");
}

#[test]
fn native_sizes_of_layers() {
    let bundle = folder(vec![
        ("a.png", file(png_of(30, 20, [1, 2, 3, 255]))),
        ("b.svg", file(b"<svg width=\"12\" height=\"9\">".to_vec())),
        ("c.svg", file(b"<svg>".to_vec())),
        ("d.png", file(vec![0])),
    ]);
    assert_eq!(layer_native_size(&bundle, "a.png"), (30, 20));
    assert_eq!(layer_native_size(&bundle, "b.svg"), (12, 9));
    assert_eq!(layer_native_size(&bundle, "c.svg"), (1024, 1024));
    assert_eq!(layer_native_size(&bundle, "d.png"), (1024, 1024));
}

#[test]
fn stacks_are_drawn_from_the_back() {
    let bundle = folder(vec![
        ("a.png", file(png_of(4, 4, [1, 2, 3, 255]))),
        ("b.png", file(png_of(4, 4, [1, 2, 3, 255]))),
    ]);
    let i = icon(
        r#"{"groups":[{"layers":[
            {"image-name":"a.png","glass":true},
            {"image-name":"b.png","glass":false},
            {"image-name":"a.png","hidden":true}],
          "shadow":{"kind":"layer-color","opacity":1},
          "translucency":{"enabled":true,"value":0.5}}]}"#,
    );
    let layers = collect_stack_layers(&bundle, &i, Appearance::Light);
    let sources: Vec<&str> = layers.iter().map(|l| l.source.as_str()).collect();
    assert_eq!(sources, vec!["b.png", "a.png"]);
    assert!(layers[1].frosted && layers[1].tinted && !layers[1].specular);
    assert!(!layers[0].frosted && layers[0].shadow.is_none());
    assert_eq!(layers[1].shadow.unwrap().kind, ShadowKind::LayerColor);
}

#[test]
fn blend_modes_have_names() {
    assert_eq!(parse_blend("soft-light"), BlendMode::SoftLight);
    assert_eq!(parse_blend("screen"), BlendMode::Screen);
    assert_eq!(parse_blend("anything"), BlendMode::Normal);
}

#[test]
fn icons_need_groups() {
    let bundle = folder(vec![]);
    let source = "{}";
    let error = plan_icon(&bundle, "A.icon", None, &json(&parse(source)), &icon(source), &component)
        .unwrap_err();
    assert!(matches!(error, IconError::NoGroups));
    let source = r#"{"groups":[]}"#;
    let plan = plan_icon(&bundle, "A.icon", None, &json(&parse(source)), &icon(source), &component);
    assert!(plan.unwrap().is_none());
}

#[test]
fn icns_gate_follows_the_name_of_the_bundle() {
    let bundle =
        folder(vec![("Assets", folder(vec![("a.png", file(png_of(8, 8, [9, 9, 9, 255])))]))]);
    let source = r#"{"groups":[{"layers":[{"image-name":"a.png"}]}]}"#;
    let (j, i) = (json(&parse(source)), icon(source));
    for (name, matches) in [(None, true), (Some("A"), true), (Some("a"), false), (Some("B"), false)]
    {
        let plan = plan_icon(&bundle, "dir/A.icon", name, &j, &i, &component).unwrap().unwrap();
        assert_eq!(plan.names_match, matches);
        assert_eq!(plan.facet_prefix, "A");
    }
}

#[test]
fn icon_bundles_list_their_files() {
    let bundle =
        folder(vec![("Assets", folder(vec![("a.png", file(png_of(8, 8, [9, 9, 9, 255])))]))]);
    let source = r#"{"groups":[{"layers":[{"image-name":"a.png"}]}]}"#;
    let (j, i) = (json(&parse(source)), icon(source));
    let outputs = |name: &str, info_plist: bool| -> Vec<String> {
        let plan = plan_icon(&bundle, "dir/A.icon", Some(name), &j, &i, &component);
        list_icon_outputs(&plan.unwrap().unwrap(), info_plist)
            .into_iter()
            .map(|output| match output {
                Output::Archive => "archive".to_string(),
                Output::IconFile(name) => name,
                Output::Plist(text) => text,
                _ => "other".to_string(),
            })
            .collect()
    };
    let named = make_icon_plist(Some("A"));
    assert_eq!(outputs("A", true), vec!["archive", "A.icns", named.as_str()]);
    assert_eq!(outputs("A", false), vec!["archive", "A.icns"]);
    let empty = make_icon_plist(None);
    assert_eq!(outputs("B", true), vec!["archive", empty.as_str()]);
    assert_eq!(outputs("B", false), vec!["archive"]);
}

#[test]
fn icon_archives_are_built() {
    let bundle =
        folder(vec![("Assets", folder(vec![("a.png", file(png_of(8, 8, [9, 99, 9, 255])))]))]);
    let source = r#"{"fill":"automatic","groups":[{"layers":[{"image-name":"a.png"}]}]}"#;
    let (j, i) = (json(&parse(source)), icon(source));
    let plan = plan_icon(&bundle, "A.icon", None, &j, &i, &component).unwrap().unwrap();
    assert!(!plan.emit_variant_axis);
    let mut light: Vec<Vec<u8>> = Vec::new();
    for k in 0..7usize {
        let (points, scale) = macos_icon_size(k);
        let side = (points * scale) as usize;
        light.push(vec![(k + 1) as u8; side * side * 4]);
    }
    let car = build_icon_car(
        &plan,
        &bundle,
        &i.groups,
        &light,
        &Vec::new(),
        "macosx",
        "26.0",
        &hash,
    )
    .unwrap();
    assert_eq!(&car[..8], b"BOMStore");
    let count = |what: &[u8]| car.windows(what.len()).filter(|w| *w == what).count();
    assert_eq!(count(b"RATC"), 1);
    assert!(count(b"A_Assets/Color-1") >= 1);
    assert!(count(b"A_Assets/Gradient-2") >= 1);
    assert!(count(b"A/Group") >= 1);
    assert!(count(b"A_Assets/a") >= 1);
    assert!(count(b"ZZZZPackedAsset") >= 1);
    assert!(count(b"A128x128_NSAppearanceNameSystem_") >= 1);
    let header = car.windows(4).position(|w| w == b"RATC").unwrap();
    assert_eq!(&car[header + 4..header + 8], &975u32.to_le_bytes());
}

#[test]
fn layer_sources_take_deepmap_streams() {
    let img = image::RgbaImage::from_fn(32, 32, |x, y| {
        image::Rgba([(x * 8) as u8, (y * 8) as u8, (x * y) as u8, 255])
    });
    let mut out = std::io::Cursor::new(Vec::new());
    img.write_to(&mut out, image::ImageFormat::Png).unwrap();
    let bundle = folder(vec![("Assets", folder(vec![("a.png", file(out.into_inner()))]))]);
    let source = r#"{"groups":[{"layers":[{"image-name":"a.png"}]}]}"#;
    let (j, i) = (json(&parse(source)), icon(source));
    let plan = plan_icon(&bundle, "A.icon", None, &j, &i, &component).unwrap().unwrap();
    let mut light: Vec<Vec<u8>> = Vec::new();
    for k in 0..7usize {
        let (points, scale) = macos_icon_size(k);
        let side = (points * scale) as usize;
        light.push(vec![(k + 1) as u8; side * side * 4]);
    }
    let list = || {
        make_icon_list(
            &plan,
            &bundle,
            &i.groups,
            &light,
            &Vec::new(),
            "macosx",
            "26.0",
            &hash,
        )
        .unwrap()
    };
    let plain = build_icon_car(
        &plan,
        &bundle,
        &i.groups,
        &light,
        &Vec::new(),
        "macosx",
        "26.0",
        &hash,
    )
    .unwrap();
    assert_eq!(store_icon_list(list(), "26.0", "macosx").unwrap(), plain);
    let mut asked = list();
    let mut names = Vec::new();
    for r in &mut asked.renditions {
        if r.pixel_data.is_empty() || !r.is_paddable() {
            continue;
        }
        if let Some(pixels) = r.deepmap_input() {
            assert_eq!(pixels.len(), 32 * 32 * 4);
            names.push(r.name.clone());
            r.deepmap = Some(b"a deepmap stream".to_vec());
        }
    }
    assert_eq!(names, vec!["image.png".to_string()]);
    let car = store_icon_list(asked, "26.0", "macosx").unwrap();
    assert_ne!(car, plain);
    let mut envelope = b"MLEC".to_vec();
    for field in [0u32, 11, 32, 1] {
        envelope.extend(field.to_le_bytes());
    }
    let at = car.windows(envelope.len()).position(|w| w == envelope).unwrap();
    assert_eq!(&car[at + 32..at + 48], b"a deepmap stream");
    assert!(!plain.windows(16).any(|w| w == b"a deepmap stream"));
}

#[test]
fn rendered_names_have_seven_groups_of_digits() {
    let name = pre_rendered_name("Icon", 128, 2, "NSAppearanceNameSystem");
    let rest = name.strip_prefix("Icon128x128_NSAppearanceNameSystem_").unwrap();
    let digits = rest.strip_suffix(".png").unwrap();
    let groups: Vec<usize> = digits.split('-').map(|g| g.len()).collect();
    assert_eq!(groups, vec![8, 4, 4, 4, 12, 5, 16]);
    assert!(digits.chars().all(|c| c == '-' || c.is_ascii_digit() || ('A'..='F').contains(&c)));
    assert_ne!(name, pre_rendered_name("Icon", 12, 2, "NSAppearanceNameSystem"));
}

#[test]
fn variants_double_the_rendered_icons() {
    let bundle =
        folder(vec![("Assets", folder(vec![("a.png", file(png_of(8, 8, [9, 99, 9, 255])))]))]);
    let source = r#"{"fill-specializations":[{"value":"system-light"},{"appearance":"dark","value":"automatic"}],
        "groups":[{"layers":[{"image-name":"a.png"}]}]}"#;
    let (j, i) = (json(&parse(source)), icon(source));
    let plan = plan_icon(&bundle, "A.icon", None, &j, &i, &component).unwrap().unwrap();
    assert!(plan.emit_variant_axis);
    let mut stacks: Vec<Vec<u8>> = Vec::new();
    for k in 0..7usize {
        let (points, scale) = macos_icon_size(k);
        let side = (points * scale) as usize;
        stacks.push(vec![k as u8; side * side * 2]);
    }
    let mut dark: Vec<Vec<u8>> = Vec::new();
    for k in 0..7usize {
        let (points, scale) = macos_icon_size(k);
        let side = (points * scale) as usize;
        dark.push(vec![k as u8; side * side * 4]);
    }
    let car =
        build_icon_car(&plan, &bundle, &i.groups, &stacks, &dark, "macosx", "26.0", &hash).unwrap();
    let names = car.windows(16).filter(|w| *w == b"A256x256_NSAppea").count();
    assert_eq!(names, 2);
}

#[test]
fn incomplete_pixels_are_refused() {
    let bundle =
        folder(vec![("Assets", folder(vec![("a.png", file(png_of(8, 8, [9, 9, 9, 255])))]))]);
    let source = r#"{"groups":[{"layers":[{"image-name":"a.png"}]}]}"#;
    let (j, i) = (json(&parse(source)), icon(source));
    let plan = plan_icon(&bundle, "A.icon", None, &j, &i, &component).unwrap().unwrap();
    let light: Vec<Vec<u8>> = vec![vec![1, 2, 3]; 7];
    let error = build_icon_car(
        &plan,
        &bundle,
        &i.groups,
        &light,
        &Vec::new(),
        "macosx",
        "26.0",
        &hash,
    )
    .unwrap_err();
    assert!(matches!(error, IconError::TooLarge));
}

/// An archive taken apart: its version, its blocks and their names.
struct ParsedCar {
    coreui_version: u32,
    blocks: Vec<(u32, u32)>,
    named: HashMap<String, u32>,
    data: Vec<u8>,
}

fn read_u32_be(b: &[u8], off: usize) -> u32 {
    u32::from_be_bytes([b[off], b[off + 1], b[off + 2], b[off + 3]])
}

fn read_u16_be(b: &[u8], off: usize) -> u16 {
    u16::from_be_bytes([b[off], b[off + 1]])
}

fn read_u32_le(b: &[u8], off: usize) -> u32 {
    u32::from_le_bytes([b[off], b[off + 1], b[off + 2], b[off + 3]])
}

fn read_u16_le(b: &[u8], off: usize) -> u16 {
    u16::from_le_bytes([b[off], b[off + 1]])
}

fn parse_car(data: Vec<u8>) -> ParsedCar {
    assert_eq!(&data[..8], b"BOMStore", "not a BOM container");
    let index = read_u32_be(&data, 16) as usize;
    let n = read_u32_be(&data, index) as usize;
    let blocks: Vec<(u32, u32)> = (0..n)
        .map(|i| (read_u32_be(&data, index + 4 + i * 8), read_u32_be(&data, index + 8 + i * 8)))
        .collect();
    let vars = read_u32_be(&data, 24) as usize;
    let mut named = HashMap::new();
    let mut p = vars + 4;
    for _ in 0..read_u32_be(&data, vars) {
        let block = read_u32_be(&data, p);
        let len = data[p + 4] as usize;
        let name = String::from_utf8(data[p + 5..p + 5 + len].to_vec()).unwrap();
        p += 5 + len;
        named.insert(name, block);
    }
    let header = blocks[named["CARHEADER"] as usize].0 as usize;
    let coreui_version = read_u32_le(&data, header + 4);
    ParsedCar { coreui_version, blocks, named, data }
}

fn block_bytes(car: &ParsedCar, index: u32) -> &[u8] {
    let (at, len) = car.blocks[index as usize];
    &car.data[at as usize..(at + len) as usize]
}

fn tree_root(car: &ParsedCar, name: &str) -> u32 {
    read_u32_be(block_bytes(car, car.named[name]), 8)
}

/// The keys and values of a tree whose keys are blocks.
fn walk_tree(car: &ParsedCar, index: u32, out: &mut Vec<(Vec<u8>, Vec<u8>)>) {
    let b = block_bytes(car, index);
    let count = read_u16_be(b, 2) as usize;
    if read_u16_be(b, 0) != 0 {
        for i in 0..count {
            let value = block_bytes(car, read_u32_be(b, 12 + i * 8)).to_vec();
            let key = block_bytes(car, read_u32_be(b, 16 + i * 8)).to_vec();
            out.push((key, value));
        }
    } else {
        walk_tree(car, read_u32_be(b, 12), out);
        for i in 0..count {
            walk_tree(car, read_u32_be(b, 20 + i * 8), out);
        }
    }
}

fn tree(car: &ParsedCar, name: &str) -> Vec<(Vec<u8>, Vec<u8>)> {
    let mut out = Vec::new();
    walk_tree(car, tree_root(car, name), &mut out);
    out
}

fn facet_names(car: &ParsedCar) -> HashSet<String> {
    tree(car, "FACETKEYS").into_iter().map(|(k, _)| String::from_utf8(k).unwrap()).collect()
}

/// The identifiers of the facets.
fn facet_identifiers(car: &ParsedCar) -> HashSet<u32> {
    let mut out = HashSet::new();
    for (_, v) in tree(car, "FACETKEYS") {
        for i in 0..read_u16_le(&v, 4) as usize {
            if read_u16_le(&v, 6 + i * 4) == 17 {
                out.insert(read_u16_le(&v, 8 + i * 4) as u32);
            }
        }
    }
    out
}

fn bitmapkeys_idents(car: &ParsedCar) -> HashSet<u32> {
    let b = block_bytes(car, tree_root(car, "BITMAPKEYS"));
    (0..read_u16_be(b, 2) as usize).map(|i| read_u32_be(b, 16 + i * 8)).collect()
}

/// Whether the keys stand once more behind the entries of the first leaf.
fn renditions_leaf_inline_matches(car: &ParsedCar) -> bool {
    let leaf = block_bytes(car, tree_root(car, "RENDITIONS"));
    if read_u16_be(leaf, 0) == 0 {
        return true;
    }
    let count = read_u16_be(leaf, 2) as usize;
    let mut keys = Vec::new();
    for i in 0..count {
        keys.extend_from_slice(block_bytes(car, read_u32_be(leaf, 16 + i * 8)));
    }
    let from = 12 + count * 8 + 4;
    leaf[from..from + keys.len()] == keys[..]
}

/// The name of a stored rendition.
fn stored_name(val: &[u8]) -> String {
    let end = 40 + val[40..168].iter().position(|b| *b == 0).unwrap_or(0);
    String::from_utf8(val[40..end].to_vec()).unwrap_or_default()
}

fn build_icon_bundle(
    image_filename: &str,
    image: Vec<u8>,
    fill: &str,
    group_name: Option<&str>,
    supported_platforms: Option<&str>,
) -> (Item, String) {
    let bundle = folder(vec![("Assets", folder(vec![(image_filename, file(image))]))]);
    let name = group_name.map(|n| format!(r#""name":"{n}","#)).unwrap_or_default();
    let platforms =
        supported_platforms.map(|p| format!(r#","supported-platforms":{p}"#)).unwrap_or_default();
    let source = format!(
        r#"{{"fill":{fill},"groups":[{{{name}"layers":[{{"image-name":"{image_filename}","name":"Logo"}}],
        "shadow":{{"kind":"none","opacity":0.5}},
        "translucency":{{"enabled":false,"value":0.5}}}}]{platforms}}}"#
    );
    (bundle, source)
}

/// The archive of a bundle, the name of its icon file if there is one, and its
/// property list.
fn compile(
    bundle: &(Item, String),
    stem: &str,
    app_icon: &str,
) -> (ParsedCar, Option<String>, String) {
    let (j, i) = (json(&parse(&bundle.1)), icon(&bundle.1));
    let path = format!("{stem}.icon");
    let plan =
        plan_icon(&bundle.0, &path, Some(app_icon), &j, &i, &component).unwrap().unwrap();
    let stacks = |bytes: usize| -> Vec<Vec<u8>> {
        (0..7)
            .map(|k| {
                let (points, scale) = macos_icon_size(k);
                let side = (points * scale) as usize;
                vec![k as u8; side * side * bytes]
            })
            .collect()
    };
    let light = if plan.emit_variant_axis { stacks(2) } else { stacks(4) };
    let dark = if plan.emit_variant_axis { stacks(4) } else { Vec::new() };
    let car =
        build_icon_car(&plan, &bundle.0, &i.groups, &light, &dark, "macosx", "26.0", &hash).unwrap();
    let icon_file =
        if plan.names_match { Some(format!("{}.icns", plan.icon_name)) } else { None };
    let name = if plan.names_match { Some(plan.icon_name.as_str()) } else { None };
    let plist = make_icon_plist(name);
    (parse_car(car), icon_file, plist)
}

#[test]
fn synthetic_png_automatic_fill_produces_iconcomposer_catalog() {
    let bundle = build_icon_bundle(
        "main.png",
        png_of(1024, 1024, [255, 80, 80, 255]),
        r#""automatic""#,
        Some("Figma"),
        Some(r#"{"squares":["macOS"]}"#),
    );
    let (car, icon_file, _) = compile(&bundle, "Synth", "Synth");
    assert_eq!(icon_file.as_deref(), Some("Synth.icns"));
    assert_eq!(car.coreui_version, 975, "CoreUI version must be 975 for .icon catalogs");
    for required in [
        "CARHEADER",
        "RENDITIONS",
        "FACETKEYS",
        "APPEARANCEKEYS",
        "KEYFORMAT",
        "EXTENDED_METADATA",
        "BITMAPKEYS",
    ] {
        assert!(car.named.contains_key(required), "missing named block: {required}");
    }
    let expected: HashSet<String> = [
        "Synth",
        "Synth/Figma",
        "Synth_Assets/main",
        "Synth_Assets/Color-1",
        "Synth_Assets/Color-2",
        "Synth_Assets/Color-3",
        "Synth_Assets/Color-4",
        "Synth_Assets/Color-5",
        "Synth_Assets/Gradient-1",
        "Synth_Assets/Gradient-2",
    ]
    .iter()
    .map(|s| s.to_string())
    .collect();
    assert_eq!(facet_names(&car), expected, "facet inventory mismatch for automatic fill");
    assert_eq!(
        bitmapkeys_idents(&car),
        facet_identifiers(&car),
        "BITMAPKEYS must contain one entry per facet identifier"
    );
    assert!(
        renditions_leaf_inline_matches(&car),
        "RENDITIONS leaf inline-key region doesn't match key blocks"
    );
}

#[test]
fn solid_srgb_fill_emits_4_colors_1_gradient_with_user_color() {
    let bundle = build_icon_bundle(
        "main.png",
        png_of(1024, 1024, [200, 200, 200, 255]),
        r#"{"solid":"srgb:0.5,0.25,0.125,1.0"}"#,
        None,
        Some(r#"{"squares":"shared"}"#),
    );
    let (car, icon_file, _) = compile(&bundle, "Solid", "Solid");
    assert_eq!(icon_file.as_deref(), Some("Solid.icns"), "matching stem requires standalone .icns");
    let facets = facet_names(&car);
    assert!(facets.contains("Solid/Group"), "unnamed group should produce `<stem>/Group` facet");
    let color_count = facets.iter().filter(|f| f.contains("_Assets/Color-")).count();
    let gradient_count = facets.iter().filter(|f| f.contains("_Assets/Gradient-")).count();
    assert_eq!(color_count, 4, "solid fill expected 4 Colors, got {color_count}");
    assert_eq!(gradient_count, 1, "solid fill expected 1 Gradient, got {gradient_count}");
    let kf = block_bytes(&car, car.named["KEYFORMAT"]);
    let columns: Vec<u16> =
        (0..read_u32_le(kf, 8) as usize).map(|i| read_u16_le(kf, 12 + i * 4)).collect();
    let scale_pos = columns.iter().position(|a| *a == 12).expect("scale attr 12 in keyformat");
    let mut found = 0;
    for (key, val) in tree(&car, "RENDITIONS") {
        if val.len() < 184 || &val[..4] != b"ISTC" || read_u16_le(&val, 36) != 1009 {
            continue;
        }
        if !stored_name(&val).ends_with("Color-2") {
            continue;
        }
        found += 1;
        let rd = &val[184 + read_u32_le(&val, 168) as usize..];
        assert_eq!(read_u32_le(rd, 8), 1, "srgb fill must store Color-2 with cspace=1");
        let n_comp = read_u32_le(rd, 12) as usize;
        assert_eq!(n_comp, 4, "srgb is 4-component");
        let comps: Vec<f64> = (0..n_comp)
            .map(|i| {
                let mut buf = [0u8; 8];
                buf.copy_from_slice(&rd[16 + i * 8..24 + i * 8]);
                f64::from_le_bytes(buf)
            })
            .collect();
        assert!((comps[0] - 0.5).abs() < 1e-6, "Color-2[r] mismatch");
        assert!((comps[1] - 0.25).abs() < 1e-6, "Color-2[g] mismatch");
        assert!((comps[2] - 0.125).abs() < 1e-6, "Color-2[b] mismatch");
        assert!((comps[3] - 1.0).abs() < 1e-6, "Color-2[a] mismatch");
        assert_eq!(read_u16_le(&key, scale_pos * 2), 1, "Color rendition KEY must have scale=1");
    }
    assert_eq!(found, 1, "Color-2 rendition not found in tree");
}

#[test]
fn svg_source_bundle_does_not_emit_legacy_pdf_only_catalog() {
    let svg = br##"<?xml version="1.0" encoding="UTF-8"?>
<svg xmlns="http://www.w3.org/2000/svg" width="1024" height="1024" viewBox="0 0 1024 1024">
    <rect width="1024" height="1024" fill="#4080FF"/>
</svg>"##;
    let bundle = build_icon_bundle(
        "main.svg",
        svg.to_vec(),
        r#""automatic""#,
        Some("Figma"),
        Some(r#"{"squares":["macOS"]}"#),
    );
    let (car, _, _) = compile(&bundle, "Vec", "Vec");
    let mut total_renditions = 0;
    let mut has_multisize = false;
    let mut svg_layer_rendition_count = 0;
    let mut png_layer_rendition_count = 0;
    let mut pdf_layout_count = 0;
    for (_, val) in tree(&car, "RENDITIONS") {
        if val.len() < 184 || &val[..4] != b"ISTC" {
            continue;
        }
        total_renditions += 1;
        let layout = read_u16_le(&val, 36);
        if layout == 1010 {
            has_multisize = true;
        }
        if layout == 9 {
            pdf_layout_count += 1;
        }
        let name = stored_name(&val);
        if name == "image.svg" {
            svg_layer_rendition_count += 1;
        }
        if name == "image.png" {
            png_layer_rendition_count += 1;
        }
    }
    assert!(has_multisize, "SVG-source .icon must emit a multisize aggregate");
    assert_eq!(
        svg_layer_rendition_count, 1,
        "SVG-source layer should be stored as exactly one Vector image.svg rendition"
    );
    assert_eq!(
        png_layer_rendition_count, 0,
        "SVG-source layer must not be rasterized to an image.png rendition"
    );
    assert_eq!(pdf_layout_count, 1, "expected exactly the layer Vector rendition");
    assert!(total_renditions > 5, "only {total_renditions} renditions");
    assert!(renditions_leaf_inline_matches(&car));
}

#[test]
fn icns_gate_matches_apple_on_bundle_stem_vs_app_icon() {
    for (label, stem, app_icon, supported, expect_icns) in [
        ("match_macos_only", "Match", "Match", Some(r#"{"squares":["macOS"]}"#), true),
        ("match_shared", "Match2", "Match2", Some(r#"{"squares":"shared"}"#), true),
        ("match_absent", "Match3", "Match3", None, true),
        ("case_mismatch", "icon", "Icon", Some(r#"{"squares":["macOS"]}"#), false),
        ("name_mismatch", "Mismatch", "Other", Some(r#"{"squares":"shared"}"#), false),
    ] {
        let bundle = build_icon_bundle(
            "main.png",
            png_of(1024, 1024, [128, 128, 128, 255]),
            r#""automatic""#,
            Some("Figma"),
            supported,
        );
        let (_, icon_file, plist) = compile(&bundle, stem, app_icon);
        assert_eq!(icon_file.is_some(), expect_icns, "{label}: icns gating mismatch");
        if expect_icns {
            assert!(plist.contains("CFBundleIconFile"), "{label}: expected populated plist");
            assert!(plist.contains(&format!("<string>{app_icon}</string>")), "{label}");
        } else {
            assert!(plist.contains("<dict/>"), "{label}: expected empty <dict/> plist");
        }
    }
}
