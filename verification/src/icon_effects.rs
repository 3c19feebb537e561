//! The effects of an icon: what a group and its layers ask for, resolved for one
//! appearance.
//!
//! An effect is given as a plain field, or as a list of values that may be meant
//! for one appearance.  The list comes first: the entry for the appearance, or
//! else the entry without one; the plain field is what is left.

use vstd::prelude::*;

use crate::icon_json::{Group, Layer};
use crate::json::{member, text_member, Json};
use crate::text::same_text;

verus! {

/// The bits of 1.0 in single precision.
pub const SINGLE_ONE: u32 = 0x3f80_0000;

/// The appearances that an icon is rendered for.
#[derive(Debug, Clone, Copy, PartialEq, Eq, Structural)]
pub enum Appearance {
    Light,
    Dark,
    Tinted,
}

/// What an appearance is called in a manifest.
pub open spec fn appearance_name(appearance: Appearance) -> Seq<char> {
    match appearance {
        Appearance::Light => "light"@,
        Appearance::Dark => "dark"@,
        Appearance::Tinted => "tinted"@,
    }
}

impl Appearance {
    /// What the appearance is called in a manifest.
    pub fn json_name(self) -> (name: &'static str)
        ensures
            name@ == appearance_name(self),
    {
        match self {
            Appearance::Light => "light",
            Appearance::Dark => "dark",
            Appearance::Tinted => "tinted",
        }
    }
}

/// How a shadow is colored.
#[derive(Debug, Clone, Copy, PartialEq, Eq, Structural)]
pub enum ShadowKind {
    /// There is none.
    Absent,
    /// In gray.
    Neutral,
    /// In the color of the layer.
    LayerColor,
}

/// A shadow.
#[derive(Debug, Clone, Copy, PartialEq, Eq, Structural)]
pub struct ShadowSpec {
    pub kind: ShadowKind,
    pub opacity: u32,
}

/// How a group is lit.
#[derive(Debug, Clone, Copy, PartialEq, Eq, Structural)]
pub enum Lighting {
    Individual,
    Combined,
}

/// How far a group lets the background through.
#[derive(Debug, Clone, Copy, PartialEq, Eq, Structural)]
pub struct Translucency {
    pub enabled: bool,
    pub value: u32,
}

/// The effects of a layer.
#[derive(Debug)]
pub struct LayerEffects {
    pub glass: bool,
    pub opacity: u32,
    /// How the layer is blended with what is below.
    pub blend_mode: String,
    pub hidden: bool,
}

/// The effects of a group.
#[derive(Debug)]
pub struct IconEffects {
    pub shadow: ShadowSpec,
    pub specular: bool,
    pub translucency: Translucency,
    /// How far the background is blurred, if at all.
    pub blur_material: Option<u32>,
    pub lighting: Lighting,
    pub blend_mode: String,
    pub layers: Vec<LayerEffects>,
}

/// The first entry for an appearance.
pub open spec fn entry_for(specs: Seq<Json>, name: Seq<char>, from: int) -> Option<Json>
    decreases specs.len() - from,
{
    if from < 0 || from >= specs.len() {
        None
    } else if text_member(specs[from], "appearance"@) == Some(name) {
        Some(specs[from])
    } else {
        entry_for(specs, name, from + 1)
    }
}

/// The first entry without an appearance.
pub open spec fn default_entry(specs: Seq<Json>, from: int) -> Option<Json>
    decreases specs.len() - from,
{
    if from < 0 || from >= specs.len() {
        None
    } else if member(specs[from], "appearance"@) is None {
        Some(specs[from])
    } else {
        default_entry(specs, from + 1)
    }
}

/// The value of the entry that applies to an appearance.
pub open spec fn specialized(specs: Seq<Json>, appearance: Appearance) -> Option<Json> {
    match entry_for(specs, appearance_name(appearance), 0) {
        Some(entry) => member(entry, "value"@),
        None => match default_entry(specs, 0) {
            Some(entry) => member(entry, "value"@),
            None => None,
        },
    }
}

/// The value of an effect: of the list, or else the plain one.
pub open spec fn resolved(
    specs: Option<Vec<Json>>,
    plain: Option<Json>,
    appearance: Appearance,
) -> Option<Json> {
    match specs {
        Some(list) => match specialized(list@, appearance) {
            Some(value) => Some(value),
            None => plain,
        },
        None => plain,
    }
}

/// A list without an entry for an appearance gives it what it gives any other
/// appearance without one.
pub proof fn missing_entries_fall_back(specs: Seq<Json>, a: Appearance, b: Appearance)
    requires
        entry_for(specs, appearance_name(a), 0) is None,
        entry_for(specs, appearance_name(b), 0) is None,
    ensures
        specialized(specs, a) == specialized(specs, b),
{
}

/// A value behind a reference.
pub open spec fn json_view(value: Option<&Json>) -> Option<Json> {
    match value {
        Some(v) => Some(*v),
        None => None,
    }
}

/// The value of the entry that applies to an appearance.
pub fn spec_value<'a>(specs: &'a Vec<Json>, appearance: Appearance) -> (value: Option<&'a Json>)
    ensures
        json_view(value) == specialized(specs@, appearance),
{
    let name = appearance.json_name();
    let mut i: usize = 0;
    while i < specs.len()
        invariant
            i <= specs@.len(),
            name@ == appearance_name(appearance),
            entry_for(specs@, name@, 0) == entry_for(specs@, name@, i as int),
        decreases specs.len() - i,
    {
        match specs[i].get_text("appearance") {
            Some(text) => {
                if same_text(text, name) {
                    return specs[i].get("value");
                }
            },
            None => {},
        }
        i = i + 1;
    }
    let mut j: usize = 0;
    while j < specs.len()
        invariant
            j <= specs@.len(),
            name@ == appearance_name(appearance),
            entry_for(specs@, name@, 0) is None,
            default_entry(specs@, 0) == default_entry(specs@, j as int),
        decreases specs.len() - j,
    {
        if specs[j].get("appearance").is_none() {
            return specs[j].get("value");
        }
        j = j + 1;
    }
    None
}

/// The value of an effect.
pub fn resolve<'a>(
    specs: &'a Option<Vec<Json>>,
    plain: Option<&'a Json>,
    appearance: Appearance,
) -> (value: Option<&'a Json>)
    ensures
        json_view(value) == resolved(*specs, json_view(plain), appearance),
{
    match specs {
        Some(list) => match spec_value(list, appearance) {
            Some(value) => Some(value),
            None => plain,
        },
        None => plain,
    }
}

/// The number that an object holds under a key, or else a default.
pub open spec fn single_or(value: Json, key: Seq<char>, default: u32) -> u32 {
    match member(value, key) {
        Some(Json::Number(n)) => n.single,
        _ => default,
    }
}

fn get_single_or(value: &Json, key: &str, default: u32) -> (single: u32)
    ensures
        single == single_or(*value, key@, default),
{
    match value.get(key) {
        Some(Json::Number(n)) => n.single,
        _ => default,
    }
}

/// A kind of shadow by its name; other names are neutral.
pub open spec fn shadow_named(name: Option<Seq<char>>) -> ShadowKind {
    if name == Some("none"@) {
        ShadowKind::Absent
    } else if name == Some("layer-color"@) {
        ShadowKind::LayerColor
    } else {
        ShadowKind::Neutral
    }
}

/// A shadow given as a word, or as an object.
pub open spec fn shadow_of(value: Json) -> ShadowSpec {
    match value {
        Json::Text(word) => ShadowSpec {
            kind: if word@ == "none"@ {
                ShadowKind::Absent
            } else {
                ShadowKind::Neutral
            },
            opacity: SINGLE_ONE,
        },
        _ => ShadowSpec {
            kind: shadow_named(text_member(value, "kind"@)),
            opacity: single_or(value, "opacity"@, SINGLE_ONE),
        },
    }
}

fn shadow_kind(name: Option<&str>) -> (kind: ShadowKind)
    ensures
        kind == shadow_named(
            match name {
                Some(n) => Some(n@),
                None => None,
            },
        ),
{
    match name {
        Some(name) => if same_text(name, "none") {
            ShadowKind::Absent
        } else if same_text(name, "layer-color") {
            ShadowKind::LayerColor
        } else {
            ShadowKind::Neutral
        },
        None => ShadowKind::Neutral,
    }
}

/// Reads a shadow.
pub fn parse_shadow(value: &Json) -> (shadow: ShadowSpec)
    ensures
        shadow == shadow_of(*value),
{
    match value {
        Json::Text(word) => {
            let kind = if same_text(word.as_str(), "none") {
                ShadowKind::Absent
            } else {
                ShadowKind::Neutral
            };
            ShadowSpec { kind, opacity: SINGLE_ONE }
        },
        _ => ShadowSpec {
            kind: shadow_kind(value.get_text("kind")),
            opacity: get_single_or(value, "opacity", SINGLE_ONE),
        },
    }
}

/// A translucency given as an object.
pub open spec fn translucency_of(value: Json) -> Translucency {
    Translucency {
        enabled: crate::json::is_set(value, "enabled"@),
        value: single_or(value, "value"@, 0),
    }
}

/// Reads a translucency.
pub fn parse_translucency(value: &Json) -> (translucency: Translucency)
    ensures
        translucency == translucency_of(*value),
{
    Translucency {
        enabled: value.has_set("enabled"),
        value: get_single_or(value, "value", 0),
    }
}

/// A blur given as a number, or as an object.
pub open spec fn blur_of(value: Json) -> Option<u32> {
    match value {
        Json::Number(n) => Some(n.single),
        _ => match member(value, "value"@) {
            Some(Json::Number(n)) => Some(n.single),
            _ => None,
        },
    }
}

/// Reads a blur.
pub fn parse_blur(value: &Json) -> (blur: Option<u32>)
    ensures
        blur == blur_of(*value),
{
    match value {
        Json::Number(n) => Some(n.single),
        _ => match value.get("value") {
            Some(Json::Number(n)) => Some(n.single),
            _ => None,
        },
    }
}

/// A truth value as a plain field.
pub open spec fn plain_bool(value: Option<bool>) -> Option<Json> {
    match value {
        Some(b) => Some(Json::Bool(b)),
        None => None,
    }
}

/// A truth value; false if it is none.
pub open spec fn bool_of(value: Option<Json>) -> bool {
    value == Some(Json::Bool(true))
}

/// A number; one if it is none.
pub open spec fn single_of(value: Option<Json>) -> u32 {
    match value {
        Some(Json::Number(n)) => n.single,
        _ => SINGLE_ONE,
    }
}

/// A blend mode; the normal one if it is no text.
pub open spec fn blend_of(value: Option<Json>) -> Seq<char> {
    match value {
        Some(Json::Text(text)) => text@,
        _ => "normal"@,
    }
}

fn resolve_bool(
    specs: &Option<Vec<Json>>,
    plain: Option<bool>,
    appearance: Appearance,
) -> (value: bool)
    ensures
        value == bool_of(resolved(*specs, plain_bool(plain), appearance)),
{
    match resolve(specs, None, appearance) {
        Some(value) => match value {
            Json::Bool(b) => *b,
            _ => false,
        },
        None => match plain {
            Some(b) => b,
            None => false,
        },
    }
}

fn resolve_blend(specs: &Option<Vec<Json>>, appearance: Appearance) -> (mode: String)
    ensures
        mode@ == blend_of(resolved(*specs, None, appearance)),
{
    match resolve(specs, None, appearance) {
        Some(Json::Text(text)) => text.as_str().to_owned(),
        _ => "normal".to_owned(),
    }
}

/// Whether these are the effects of a layer.
pub open spec fn are_layer_effects(
    effects: LayerEffects,
    layer: Layer,
    appearance: Appearance,
) -> bool {
    &&& effects.glass == bool_of(
        resolved(layer.glass_specializations, plain_bool(layer.glass), appearance),
    )
    &&& effects.opacity == single_of(resolved(layer.opacity_specializations, None, appearance))
    &&& effects.blend_mode@ == blend_of(
        resolved(layer.blend_mode_specializations, None, appearance),
    )
    &&& effects.hidden == bool_of(
        resolved(layer.hidden_specializations, plain_bool(layer.hidden), appearance),
    )
}

/// Resolves the effects of a layer.
pub fn resolve_layer(layer: &Layer, appearance: Appearance) -> (effects: LayerEffects)
    ensures
        are_layer_effects(effects, *layer, appearance),
{
    let glass = resolve_bool(&layer.glass_specializations, layer.glass, appearance);
    let opacity: u32 = match resolve(&layer.opacity_specializations, None, appearance) {
        Some(Json::Number(n)) => n.single,
        _ => SINGLE_ONE,
    };
    let blend_mode = resolve_blend(&layer.blend_mode_specializations, appearance);
    let hidden = resolve_bool(&layer.hidden_specializations, layer.hidden, appearance);
    LayerEffects { glass, opacity, blend_mode, hidden }
}

/// The shadow of a group: of its list, or else its own; none without either.
pub open spec fn group_shadow(group: Group, appearance: Appearance) -> ShadowSpec {
    match resolved(group.shadow_specializations, None, appearance) {
        Some(value) => shadow_of(value),
        None => match group.shadow {
            Some(shadow) => ShadowSpec {
                kind: shadow_named(Some(shadow.kind@)),
                opacity: match shadow.opacity {
                    Some(opacity) => opacity,
                    None => SINGLE_ONE,
                },
            },
            None => ShadowSpec { kind: ShadowKind::Absent, opacity: SINGLE_ONE },
        },
    }
}

/// The translucency of a group: of its list, or else its own; off without either.
pub open spec fn group_translucency(group: Group, appearance: Appearance) -> Translucency {
    match resolved(group.translucency_specializations, None, appearance) {
        Some(value) => translucency_of(value),
        None => match group.translucency {
            Some(t) => Translucency {
                enabled: t.enabled == Some(true),
                value: match t.value {
                    Some(value) => value,
                    None => 0,
                },
            },
            None => Translucency { enabled: false, value: 0 },
        },
    }
}

/// The blur of a group.
pub open spec fn group_blur(group: Group, appearance: Appearance) -> Option<u32> {
    match resolved(group.blur_material_specializations, group.blur_material, appearance) {
        Some(value) => blur_of(value),
        None => None,
    }
}

/// The lighting of a group.
pub open spec fn group_lighting(group: Group, appearance: Appearance) -> Lighting {
    match resolved(group.lighting_specializations, None, appearance) {
        Some(Json::Text(text)) => if text@ == "combined"@ {
            Lighting::Combined
        } else {
            Lighting::Individual
        },
        _ => Lighting::Individual,
    }
}

/// Whether these are the effects of a group.
pub open spec fn are_effects(effects: IconEffects, group: Group, appearance: Appearance) -> bool {
    &&& effects.shadow == group_shadow(group, appearance)
    &&& effects.specular == bool_of(
        resolved(group.specular_specializations, plain_bool(group.specular), appearance),
    )
    &&& effects.translucency == group_translucency(group, appearance)
    &&& effects.blur_material == group_blur(group, appearance)
    &&& effects.lighting == group_lighting(group, appearance)
    &&& effects.blend_mode@ == blend_of(
        resolved(group.blend_mode_specializations, None, appearance),
    )
    &&& effects.layers@.len() == group.layers@.len()
    &&& forall|i: int|
        0 <= i < group.layers@.len() ==> are_layer_effects(
            #[trigger] effects.layers@[i],
            group.layers@[i],
            appearance,
        )
}

/// Resolves the effects of a group.
pub fn resolve_icon_effects(group: &Group, appearance: Appearance) -> (effects: IconEffects)
    ensures
        are_effects(effects, *group, appearance),
{
    let shadow = match resolve(&group.shadow_specializations, None, appearance) {
        Some(value) => parse_shadow(value),
        None => match &group.shadow {
            Some(shadow) => {
                let opacity: u32 = match shadow.opacity {
                    Some(opacity) => opacity,
                    None => SINGLE_ONE,
                };
                ShadowSpec { kind: shadow_kind(Some(shadow.kind.as_str())), opacity }
            },
            None => ShadowSpec { kind: ShadowKind::Absent, opacity: SINGLE_ONE },
        },
    };
    let specular = resolve_bool(&group.specular_specializations, group.specular, appearance);
    let translucency = match resolve(&group.translucency_specializations, None, appearance) {
        Some(value) => parse_translucency(value),
        None => match &group.translucency {
            Some(t) => {
                let enabled = match t.enabled {
                    Some(b) => b,
                    None => false,
                };
                let value: u32 = match t.value {
                    Some(value) => value,
                    None => 0,
                };
                Translucency { enabled, value }
            },
            None => Translucency { enabled: false, value: 0 },
        },
    };
    let plain_blur = match &group.blur_material {
        Some(value) => Some(value),
        None => None,
    };
    let blur_material: Option<u32> = match resolve(
        &group.blur_material_specializations,
        plain_blur,
        appearance,
    ) {
        Some(value) => parse_blur(value),
        None => None,
    };
    let lighting = match resolve(&group.lighting_specializations, None, appearance) {
        Some(Json::Text(text)) => if same_text(text.as_str(), "combined") {
            Lighting::Combined
        } else {
            Lighting::Individual
        },
        _ => Lighting::Individual,
    };
    let blend_mode = resolve_blend(&group.blend_mode_specializations, appearance);
    let mut layers: Vec<LayerEffects> = Vec::new();
    let mut i: usize = 0;
    while i < group.layers.len()
        invariant
            i <= group.layers@.len(),
            layers@.len() == i,
            forall|j: int|
                0 <= j < i ==> are_layer_effects(
                    #[trigger] layers@[j],
                    group.layers@[j],
                    appearance,
                ),
        decreases group.layers.len() - i,
    {
        layers.push(resolve_layer(&group.layers[i], appearance));
        i = i + 1;
    }
    IconEffects {
        shadow,
        specular,
        translucency,
        blur_material,
        lighting,
        blend_mode,
        layers,
    }
}

/// How a layer is blended with what is below.
#[derive(Debug, Clone, Copy, PartialEq, Eq, Structural)]
pub enum BlendMode {
    Normal,
    Multiply,
    Screen,
    Overlay,
    SoftLight,
    HardLight,
    Darken,
    Lighten,
}

/// A blend mode by its name; other names are normal.
pub open spec fn blend_named(name: Seq<char>) -> BlendMode {
    if name == "multiply"@ {
        BlendMode::Multiply
    } else if name == "screen"@ {
        BlendMode::Screen
    } else if name == "overlay"@ {
        BlendMode::Overlay
    } else if name == "soft-light"@ {
        BlendMode::SoftLight
    } else if name == "hard-light"@ {
        BlendMode::HardLight
    } else if name == "darken"@ {
        BlendMode::Darken
    } else if name == "lighten"@ {
        BlendMode::Lighten
    } else {
        BlendMode::Normal
    }
}

/// A blend mode by its name.
pub fn parse_blend(name: &str) -> (mode: BlendMode)
    ensures
        mode == blend_named(name@),
{
    if same_text(name, "multiply") {
        BlendMode::Multiply
    } else if same_text(name, "screen") {
        BlendMode::Screen
    } else if same_text(name, "overlay") {
        BlendMode::Overlay
    } else if same_text(name, "soft-light") {
        BlendMode::SoftLight
    } else if same_text(name, "hard-light") {
        BlendMode::HardLight
    } else if same_text(name, "darken") {
        BlendMode::Darken
    } else if same_text(name, "lighten") {
        BlendMode::Lighten
    } else {
        BlendMode::Normal
    }
}

} // verus!
