//! The manifest of an `.icon` bundle.  Fields whose shape varies are kept as JSON
//! values; floating-point numbers are given by their bits.

use vstd::prelude::*;

use crate::json::Json;
use crate::text::same_text;

verus! {

/// The manifest.
#[derive(Debug)]
pub struct IconJson {
    pub fill: Option<Fill>,
    pub fill_specializations: Option<Vec<Json>>,
    pub groups: Vec<Group>,
    pub supported_platforms: Option<SupportedPlatforms>,
    pub color_space_for_untagged_svg_colors: Option<String>,
}

/// What an icon or a layer is filled with: a keyword such as `automatic`, or an
/// object such as a gradient or a solid color.
#[derive(Debug)]
pub enum Fill {
    Keyword(String),
    Structured(Json),
}

/// A group of layers.
#[derive(Debug)]
pub struct Group {
    pub name: Option<String>,
    pub hidden: Option<bool>,
    pub layers: Vec<Layer>,
    pub position: Option<Position>,
    pub shadow: Option<Shadow>,
    pub shadow_specializations: Option<Vec<Json>>,
    pub translucency: Option<Translucency>,
    pub translucency_specializations: Option<Vec<Json>>,
    pub specular: Option<bool>,
    pub specular_specializations: Option<Vec<Json>>,
    pub blur_material: Option<Json>,
    pub blur_material_specializations: Option<Vec<Json>>,
    pub lighting_specializations: Option<Vec<Json>>,
    pub blend_mode_specializations: Option<Vec<Json>>,
}

/// A layer.
#[derive(Debug)]
pub struct Layer {
    pub name: Option<String>,
    pub image_name: Option<String>,
    pub glass: Option<bool>,
    pub hidden: Option<bool>,
    pub position: Option<Position>,
    pub fill: Option<Fill>,
    pub opacity_specializations: Option<Vec<Json>>,
    pub blend_mode_specializations: Option<Vec<Json>>,
    pub hidden_specializations: Option<Vec<Json>>,
    pub glass_specializations: Option<Vec<Json>>,
    pub fill_specializations: Option<Vec<Json>>,
}

/// Where a group or a layer is, and how large.
#[derive(Debug, Clone, Copy)]
pub struct Position {
    pub scale: Option<u32>,
    pub translation_in_points: Option<[u32; 2]>,
}

/// The shadow of a group.
#[derive(Debug)]
pub struct Shadow {
    pub kind: String,
    pub opacity: Option<u32>,
}

/// How far a group lets the background through.
#[derive(Debug, Clone, Copy)]
pub struct Translucency {
    pub enabled: Option<bool>,
    pub value: Option<u32>,
}

/// The platforms that a shape of the icon is for: a keyword, or a list.
#[derive(Debug)]
pub enum PlatformList {
    Shared(String),
    Explicit(Vec<String>),
}

/// The platforms of a list; a keyword lists none.
pub open spec fn listed(platforms: PlatformList) -> Seq<String> {
    match platforms {
        PlatformList::Shared(_) => Seq::empty(),
        PlatformList::Explicit(names) => names@,
    }
}

impl PlatformList {
    /// The platforms of a list.
    pub fn as_slice(&self) -> (names: &[String])
        ensures
            names@ == listed(*self),
    {
        match self {
            PlatformList::Shared(_) => {
                let none: &[String] = &[];
                assert(none@ =~= Seq::empty());
                none
            },
            PlatformList::Explicit(names) => names.as_slice(),
        }
    }

    /// Whether the icon is for all platforms.
    pub fn is_shared(&self) -> (answer: bool)
        ensures
            answer == (self matches PlatformList::Shared(word) && word@ == "shared"@),
    {
        match self {
            PlatformList::Shared(word) => same_text(word.as_str(), "shared"),
            PlatformList::Explicit(_) => false,
        }
    }
}

/// The platforms that an icon is for.
#[derive(Debug)]
pub struct SupportedPlatforms {
    pub squares: Option<PlatformList>,
    pub circles: Option<PlatformList>,
}

/// A group with each of its first `n` layers.
pub open spec fn layers_of_group(group: Group, n: nat) -> Seq<(Group, Layer)>
    decreases n,
{
    if n == 0 {
        Seq::empty()
    } else {
        layers_of_group(group, (n - 1) as nat).push((group, group.layers@[n - 1]))
    }
}

/// Every layer of the first `n` groups, with its group, in the order of the
/// manifest.
pub open spec fn layers_of(groups: Seq<Group>, n: nat) -> Seq<(Group, Layer)>
    decreases n,
{
    if n == 0 {
        Seq::empty()
    } else {
        layers_of(groups, (n - 1) as nat) + layers_of_group(
            groups[n - 1],
            groups[n - 1].layers@.len(),
        )
    }
}

/// Layers behind references.
pub open spec fn layer_views(layers: Seq<(&Group, &Layer)>) -> Seq<(Group, Layer)> {
    Seq::new(layers.len(), |i: int| (*layers[i].0, *layers[i].1))
}

impl IconJson {
    /// Every layer with its group, in the order of the manifest.
    pub fn iter_layers(&self) -> (layers: Vec<(&Group, &Layer)>)
        ensures
            layer_views(layers@) == layers_of(self.groups@, self.groups@.len()),
    {
        let mut layers: Vec<(&Group, &Layer)> = Vec::new();
        let mut i: usize = 0;
        assert(layer_views(layers@) =~= Seq::empty());
        while i < self.groups.len()
            invariant
                i <= self.groups@.len(),
                layer_views(layers@) == layers_of(self.groups@, i as nat),
            decreases self.groups.len() - i,
        {
            let group = &self.groups[i];
            let ghost start = layer_views(layers@);
            let mut j: usize = 0;
            assert(layer_views(layers@) =~= start + layers_of_group(*group, 0));
            while j < group.layers.len()
                invariant
                    j <= group.layers@.len(),
                    layer_views(layers@) == start + layers_of_group(*group, j as nat),
                decreases group.layers.len() - j,
            {
                let ghost before = layers@;
                layers.push((group, &group.layers[j]));
                j = j + 1;
                assert(layer_views(layers@) =~= layer_views(before).push(
                    (*group, group.layers@[j - 1]),
                ));
                assert(layer_views(layers@) =~= start + layers_of_group(*group, j as nat));
            }
            i = i + 1;
        }
        layers
    }
}

} // verus!
