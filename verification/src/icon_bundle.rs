//! `.icon` bundles: what a bundle's manifest refers to, and what of it goes into an
//! archive.

use vstd::prelude::*;
use vstd::string::StrSliceExecFns;

use crate::catalog::file_data;
use crate::entries::{check_ending, ends_in};
use crate::files::{
    extension, file_name, file_name_of, item_at, join, joined, split_extension, stem, Item,
};
use crate::icon_effects::{
    are_effects, are_layer_effects, blend_named, blend_of, bool_of, group_blur, group_shadow,
    group_translucency, parse_blend, plain_bool, resolve_icon_effects, resolve_layer, resolved,
    single_of, Appearance, BlendMode, IconEffects, ShadowKind, ShadowSpec,
};
use crate::icon_json::{layer_views, layers_of, Fill, Group, IconJson, Layer, Position};
use crate::json::{items_of, member, text_member, text_or, Json};
use crate::naming::is_text_function;
use crate::order::texts;
use crate::palette::{
    color_spec, color_views, fill_assets, icon_palette, parse_color_spec, str_view, ColorAsset,
    ColorModel, GradientAsset, GradientModel, Palette, PaletteModel,
};
use crate::pixels::{image_size, measure_image};
use crate::svg::{parse_svg_dimensions, svg_size};
use crate::text::{decimal, put_decimal, put_str, same_text};

verus! {

/// Why a bundle cannot be compiled.
#[derive(Debug)]
pub enum IconError {
    /// The manifest has no groups.
    NoGroups,
    /// A layer has no image: the name of the layer.
    NoImageName(String),
    /// The image of a layer is not there: the names of the layer and of the image.
    NoImage(String, String),
    /// The document that the icon is drawn from has no size: where it is.
    NoSize(String),
    /// A file cannot be read.
    Unreadable,
    /// A file holds no image that can be decoded.
    BadImage,
    /// An image or the archive is too large, or an image is not complete.
    TooLarge,
}

/// An error as a mathematical value.
pub enum IconFault {
    NoGroups,
    NoImageName(Seq<char>),
    NoImage(Seq<char>, Seq<char>),
    NoSize(Seq<char>),
    Unreadable,
    BadImage,
    TooLarge,
}

impl View for IconError {
    type V = IconFault;

    open spec fn view(&self) -> IconFault {
        match self {
            IconError::NoGroups => IconFault::NoGroups,
            IconError::NoImageName(layer) => IconFault::NoImageName(layer@),
            IconError::NoImage(layer, image) => IconFault::NoImage(layer@, image@),
            IconError::NoSize(path) => IconFault::NoSize(path@),
            IconError::Unreadable => IconFault::Unreadable,
            IconError::BadImage => IconFault::BadImage,
            IconError::TooLarge => IconFault::TooLarge,
        }
    }
}

/// An error in words.
pub open spec fn fault_text(fault: IconFault) -> Seq<char> {
    match fault {
        IconFault::NoGroups => "icon.json missing required `groups` field"@,
        IconFault::NoImageName(layer) => "the layer \""@ + layer
            + "\" does not have an image name"@,
        IconFault::NoImage(layer, image) => "the layer \""@ + layer
            + "\" references an image named \""@ + image + "\" that does not exist"@,
        IconFault::NoSize(path) => "could not determine intrinsic size of "@ + path,
        IconFault::Unreadable => "could not read a file of the bundle"@,
        IconFault::BadImage => "could not decode an image of the bundle"@,
        IconFault::TooLarge => "an image of the bundle is too large or not complete"@,
    }
}

impl IconError {
    /// The error in words.
    pub fn message(&self) -> (text: String)
        ensures
            text@ == fault_text(self@),
    {
        match self {
            IconError::NoGroups => "icon.json missing required `groups` field".to_owned(),
            IconError::NoImageName(layer) => {
                let mut text = "the layer \"".to_owned();
                put_str(&mut text, layer.as_str());
                put_str(&mut text, "\" does not have an image name");
                text
            },
            IconError::NoImage(layer, image) => {
                let mut text = "the layer \"".to_owned();
                put_str(&mut text, layer.as_str());
                put_str(&mut text, "\" references an image named \"");
                put_str(&mut text, image.as_str());
                put_str(&mut text, "\" that does not exist");
                text
            },
            IconError::NoSize(path) => {
                let mut text = "could not determine intrinsic size of ".to_owned();
                put_str(&mut text, path.as_str());
                text
            },
            IconError::Unreadable => "could not read a file of the bundle".to_owned(),
            IconError::BadImage => "could not decode an image of the bundle".to_owned(),
            IconError::TooLarge => "an image of the bundle is too large or not complete".to_owned(),
        }
    }
}

/// Whether a path is that of a bundle.
pub fn is_icon_bundle(path: &str) -> (answer: bool)
    ensures
        answer == (extension(file_name_of(path@)) == "icon"@),
{
    let (_, kind) = split_extension(file_name(path));
    same_text(kind, "icon")
}

/// Whether the last component of a path is a name.
pub open spec fn has_name(path: Seq<char>) -> bool {
    file_name_of(path).len() > 0
}

/// The name of a file without its extension, or else a default.
pub open spec fn stem_or(path: Seq<char>, default: Seq<char>) -> Seq<char> {
    if has_name(path) {
        stem(file_name_of(path))
    } else {
        default
    }
}

/// The name of a file without its extension, or else a default.
pub fn file_stem_or<'a>(path: &'a str, default: &'a str) -> (name: &'a str)
    ensures
        name@ == stem_or(path@, default@),
{
    let name = file_name(path);
    if name.unicode_len() > 0 {
        let (first, _) = split_extension(name);
        first
    } else {
        default
    }
}

/// What the names of a bundle's assets start with.
pub fn bundle_facet_prefix(icon_path: &str) -> (prefix: String)
    ensures
        prefix@ == stem_or(icon_path@, "Assets"@),
{
    file_stem_or(icon_path, "Assets").to_owned()
}

/// Where the image of a layer is: among the assets of the bundle, or else in the
/// bundle itself.
pub open spec fn located(bundle: Item, image: Seq<char>) -> Option<Seq<char>> {
    let inner = joined("Assets"@, image);
    if item_at(bundle, inner) is Some {
        Some(inner)
    } else if item_at(bundle, image) is Some {
        Some(image)
    } else {
        None
    }
}

/// The text of an optional string.
pub open spec fn path_view(path: Option<String>) -> Option<Seq<char>> {
    match path {
        Some(p) => Some(p@),
        None => None,
    }
}

/// Where the image of a layer is.
pub fn locate(bundle: &Item, image: &str) -> (path: Option<String>)
    ensures
        path_view(path) == located(*bundle, image@),
{
    let inner = join("Assets", image);
    match bundle.find(inner.as_str()) {
        Some(_) => Some(inner),
        None => match bundle.find(image) {
            Some(_) => Some(image.to_owned()),
            None => None,
        },
    }
}

/// What is wrong with a layer.
pub open spec fn layer_fault(bundle: Item, layer: Json) -> Option<IconFault> {
    let name = text_or(layer, "name"@, "(unnamed)"@);
    match text_member(layer, "image-name"@) {
        None => Some(IconFault::NoImageName(name)),
        Some(image) => if located(bundle, image) is None {
            Some(IconFault::NoImage(name, image))
        } else {
            None
        },
    }
}

/// What is wrong with the first faulty one among the first `n` layers.
pub open spec fn layers_fault(bundle: Item, layers: Seq<Json>, n: nat) -> Option<IconFault>
    decreases n,
{
    if n == 0 {
        None
    } else {
        match layers_fault(bundle, layers, (n - 1) as nat) {
            Some(fault) => Some(fault),
            None => layer_fault(bundle, layers[n - 1]),
        }
    }
}

/// What is wrong with the first faulty layer of the first `n` groups.
pub open spec fn groups_fault(bundle: Item, groups: Seq<Json>, n: nat) -> Option<IconFault>
    decreases n,
{
    if n == 0 {
        None
    } else {
        match groups_fault(bundle, groups, (n - 1) as nat) {
            Some(fault) => Some(fault),
            None => {
                let layers = items_of(groups[n - 1], "layers"@);
                layers_fault(bundle, layers, layers.len())
            },
        }
    }
}

/// What is wrong with the layers of a manifest.
pub open spec fn manifest_fault(bundle: Item, json: Json) -> Option<IconFault> {
    let groups = items_of(json, "groups"@);
    groups_fault(bundle, groups, groups.len())
}

/// What came of a check.
pub open spec fn fault_of(result: Result<(), IconError>) -> Option<IconFault> {
    match result {
        Ok(()) => None,
        Err(e) => Some(e@),
    }
}

proof fn lemma_layers_fault_stays(bundle: Item, layers: Seq<Json>, m: nat, n: nat)
    requires
        m <= n,
        layers_fault(bundle, layers, m) is Some,
    ensures
        layers_fault(bundle, layers, n) == layers_fault(bundle, layers, m),
    decreases n,
{
    if m < n {
        lemma_layers_fault_stays(bundle, layers, m, (n - 1) as nat);
    }
}

proof fn lemma_groups_fault_stays(bundle: Item, groups: Seq<Json>, m: nat, n: nat)
    requires
        m <= n,
        groups_fault(bundle, groups, m) is Some,
    ensures
        groups_fault(bundle, groups, n) == groups_fault(bundle, groups, m),
    decreases n,
{
    if m < n {
        lemma_groups_fault_stays(bundle, groups, m, (n - 1) as nat);
    }
}

fn validate_layers(bundle: &Item, layers: &Vec<Json>) -> (result: Result<(), IconError>)
    ensures
        fault_of(result) == layers_fault(*bundle, layers@, layers@.len()),
{
    let mut i: usize = 0;
    while i < layers.len()
        invariant
            i <= layers@.len(),
            layers_fault(*bundle, layers@, i as nat) is None,
        decreases layers.len() - i,
    {
        let layer = &layers[i];
        let name = layer.get_text_or("name", "(unnamed)");
        proof {
            if layer_fault(*bundle, *layer) is Some {
                lemma_layers_fault_stays(
                    *bundle,
                    layers@,
                    (i + 1) as nat,
                    layers@.len(),
                );
            }
        }
        match layer.get_text("image-name") {
            None => {
                return Err(IconError::NoImageName(name.to_owned()));
            },
            Some(image) => {
                if locate(bundle, image).is_none() {
                    return Err(IconError::NoImage(name.to_owned(), image.to_owned()));
                }
            },
        }
        i = i + 1;
    }
    Ok(())
}

/// Checks that every layer of a manifest has an image, and that it is there.
pub fn validate_layer_image_refs(bundle: &Item, json: &Json) -> (result: Result<(), IconError>)
    ensures
        fault_of(result) == manifest_fault(*bundle, *json),
{
    match json.get_list("groups") {
        None => Ok(()),
        Some(groups) => {
            let mut i: usize = 0;
            while i < groups.len()
                invariant
                    i <= groups@.len(),
                    groups@ == items_of(*json, "groups"@),
                    groups_fault(*bundle, groups@, i as nat) is None,
                decreases groups.len() - i,
            {
                let result = match groups[i].get_list("layers") {
                    None => Ok(()),
                    Some(layers) => validate_layers(bundle, layers),
                };
                match result {
                    Ok(()) => {},
                    Err(e) => {
                        proof {
                            lemma_groups_fault_stays(
                                *bundle,
                                groups@,
                                (i + 1) as nat,
                                groups@.len(),
                            );
                        }
                        return Err(e);
                    },
                }
                i = i + 1;
            }
            Ok(())
        },
    }
}

/// The images that were found, and the names that were seen on the way.
pub struct Sources {
    pub seen: Seq<Seq<char>>,
    pub paths: Seq<Seq<char>>,
}

/// The images of a layer: each name counts once.
pub open spec fn with_source(s: Sources, bundle: Item, layer: Json) -> Sources {
    match text_member(layer, "image-name"@) {
        None => s,
        Some(image) => if s.seen.contains(image) {
            s
        } else {
            Sources {
                seen: s.seen.push(image),
                paths: match located(bundle, image) {
                    Some(path) => s.paths.push(path),
                    None => s.paths,
                },
            }
        },
    }
}

/// The images of the first `n` layers.
pub open spec fn with_sources(s: Sources, bundle: Item, layers: Seq<Json>, n: nat) -> Sources
    decreases n,
{
    if n == 0 {
        s
    } else {
        with_source(with_sources(s, bundle, layers, (n - 1) as nat), bundle, layers[n - 1])
    }
}

/// The images of the first `n` groups.
pub open spec fn group_sources(bundle: Item, groups: Seq<Json>, n: nat) -> Sources
    decreases n,
{
    if n == 0 {
        Sources { seen: Seq::empty(), paths: Seq::empty() }
    } else {
        let layers = items_of(groups[n - 1], "layers"@);
        with_sources(group_sources(bundle, groups, (n - 1) as nat), bundle, layers, layers.len())
    }
}

/// Where the images of a manifest are, each once.
pub open spec fn source_images(bundle: Item, json: Json) -> Seq<Seq<char>> {
    let groups = items_of(json, "groups"@);
    group_sources(bundle, groups, groups.len()).paths
}

/// Whether a text is in a list.
fn contains_text(list: &Vec<String>, text: &str) -> (answer: bool)
    ensures
        answer == texts(list@).contains(text@),
{
    let mut i: usize = 0;
    while i < list.len()
        invariant
            i <= list@.len(),
            forall|j: int| 0 <= j < i ==> (#[trigger] list@[j])@ != text@,
        decreases list.len() - i,
    {
        if same_text(list[i].as_str(), text) {
            assert(texts(list@)[i as int] == text@);
            return true;
        }
        i = i + 1;
    }
    proof {
        assert forall|j: int| 0 <= j < texts(list@).len() implies #[trigger] texts(list@)[j]
            != text@ by {
            assert(list@[j]@ != text@);
        }
    }
    false
}

fn push_text(list: &mut Vec<String>, text: String)
    ensures
        texts(final(list)@) == texts(old(list)@).push(text@),
{
    list.push(text);
    assert(texts(list@) =~= texts(old(list)@).push(text@));
}

fn add_sources(
    seen: &mut Vec<String>,
    paths: &mut Vec<String>,
    bundle: &Item,
    layers: &Vec<Json>,
)
    ensures
        (Sources { seen: texts(final(seen)@), paths: texts(final(paths)@) }) == with_sources(
            Sources { seen: texts(old(seen)@), paths: texts(old(paths)@) },
            *bundle,
            layers@,
            layers@.len(),
        ),
{
    let ghost start = Sources { seen: texts(seen@), paths: texts(paths@) };
    let mut i: usize = 0;
    while i < layers.len()
        invariant
            i <= layers@.len(),
            (Sources { seen: texts(seen@), paths: texts(paths@) }) == with_sources(
                start,
                *bundle,
                layers@,
                i as nat,
            ),
        decreases layers.len() - i,
    {
        match layers[i].get_text("image-name") {
            None => {},
            Some(image) => {
                if !contains_text(seen, image) {
                    push_text(seen, image.to_owned());
                    match locate(bundle, image) {
                        Some(path) => {
                            push_text(paths, path);
                        },
                        None => {},
                    }
                }
            },
        }
        i = i + 1;
    }
}

/// Finds the images of a manifest.
pub fn find_all_source_images(bundle: &Item, json: &Json) -> (paths: Vec<String>)
    ensures
        texts(paths@) == source_images(*bundle, *json),
{
    let mut seen: Vec<String> = Vec::new();
    let mut paths: Vec<String> = Vec::new();
    assert(texts(seen@) =~= Seq::empty() && texts(paths@) =~= Seq::empty());
    match json.get_list("groups") {
        None => {},
        Some(groups) => {
            let mut i: usize = 0;
            while i < groups.len()
                invariant
                    i <= groups@.len(),
                    (Sources { seen: texts(seen@), paths: texts(paths@) }) == group_sources(
                        *bundle,
                        groups@,
                        i as nat,
                    ),
                decreases groups.len() - i,
            {
                match groups[i].get_list("layers") {
                    None => {},
                    Some(layers) => {
                        add_sources(&mut seen, &mut paths, bundle, layers);
                    },
                }
                i = i + 1;
            }
        },
    }
    paths
}

/// The source of a layer: the name it is stored under, and where it is.
#[derive(Debug)]
pub struct LayerAsset {
    pub facet_name: String,
    pub source_path: String,
}

/// Names and places of layers.
pub open spec fn asset_views(assets: Seq<LayerAsset>) -> Seq<(Seq<char>, Seq<char>)> {
    Seq::new(assets.len(), |i: int| (assets[i].facet_name@, assets[i].source_path@))
}

/// The name that the image of a layer is stored under.
pub open spec fn asset_facet(prefix: Seq<char>, image: Seq<char>) -> Seq<char> {
    prefix + "_Assets/"@ + stem_or(image, image)
}

/// The name that the image of a layer is stored under.
pub fn make_asset_facet(prefix: &str, image: &str) -> (facet: String)
    ensures
        facet@ == asset_facet(prefix@, image@),
{
    let mut facet = prefix.to_owned();
    put_str(&mut facet, "_Assets/");
    put_str(&mut facet, file_stem_or(image, image));
    facet
}

/// Whether a name is among those of some layers.
pub open spec fn has_facet(assets: Seq<(Seq<char>, Seq<char>)>, facet: Seq<char>) -> bool {
    exists|i: int| 0 <= i < assets.len() && #[trigger] assets[i].0 == facet
}

/// The sources of the first `n` layers of a manifest, each name once; layers
/// without an image that is there are left out.
pub open spec fn layer_assets(
    bundle: Item,
    icon: IconJson,
    n: nat,
    prefix: Seq<char>,
) -> Seq<(Seq<char>, Seq<char>)>
    decreases n,
{
    if n == 0 {
        Seq::empty()
    } else {
        let before = layer_assets(bundle, icon, (n - 1) as nat, prefix);
        let layer = layers_of(icon.groups@, icon.groups@.len())[n - 1].1;
        match layer.image_name {
            None => before,
            Some(image) => match located(bundle, image@) {
                None => before,
                Some(path) => if has_facet(before, asset_facet(prefix, image@)) {
                    before
                } else {
                    before.push((asset_facet(prefix, image@), path))
                },
            },
        }
    }
}

fn contains_facet(assets: &Vec<LayerAsset>, facet: &str) -> (answer: bool)
    ensures
        answer == has_facet(asset_views(assets@), facet@),
{
    let mut i: usize = 0;
    while i < assets.len()
        invariant
            i <= assets@.len(),
            forall|j: int| 0 <= j < i ==> (#[trigger] assets@[j]).facet_name@ != facet@,
        decreases assets.len() - i,
    {
        if same_text(assets[i].facet_name.as_str(), facet) {
            assert(asset_views(assets@)[i as int].0 == facet@);
            return true;
        }
        i = i + 1;
    }
    proof {
        assert forall|j: int| 0 <= j < asset_views(assets@).len() implies #[trigger] asset_views(
            assets@,
        )[j].0 != facet@ by {
            assert(assets@[j].facet_name@ != facet@);
        }
    }
    false
}

/// The sources of the layers of a manifest.
pub fn collect_layer_assets(bundle: &Item, icon: &IconJson, prefix: &str) -> (assets: Vec<
    LayerAsset,
>)
    ensures
        asset_views(assets@) == layer_assets(
            *bundle,
            *icon,
            layers_of(icon.groups@, icon.groups@.len()).len(),
            prefix@,
        ),
{
    let layers = icon.iter_layers();
    let mut assets: Vec<LayerAsset> = Vec::new();
    let mut i: usize = 0;
    assert(asset_views(assets@) =~= Seq::empty());
    while i < layers.len()
        invariant
            i <= layers@.len(),
            layer_views(layers@) == layers_of(icon.groups@, icon.groups@.len()),
            asset_views(assets@) == layer_assets(*bundle, *icon, i as nat, prefix@),
        decreases layers.len() - i,
    {
        let layer = layers[i].1;
        assert(layer_views(layers@)[i as int].1 == *layer);
        match &layer.image_name {
            None => {},
            Some(image) => {
                match locate(bundle, image.as_str()) {
                    None => {},
                    Some(path) => {
                        let facet = make_asset_facet(prefix, image.as_str());
                        if !contains_facet(&assets, facet.as_str()) {
                            let ghost before = assets@;
                            assets.push(LayerAsset { facet_name: facet, source_path: path });
                            assert(asset_views(assets@) =~= asset_views(before).push(
                                (facet@, path@),
                            ));
                        }
                    },
                }
            },
        }
        i = i + 1;
    }
    assets
}

/// No name of a layer's source comes twice.
pub proof fn layer_assets_have_names_of_their_own(
    bundle: Item,
    icon: IconJson,
    n: nat,
    prefix: Seq<char>,
)
    ensures
        forall|i: int, j: int|
            0 <= i < j < layer_assets(bundle, icon, n, prefix).len() ==> (
            #[trigger] layer_assets(bundle, icon, n, prefix)[i]).0 != (#[trigger] layer_assets(
                bundle,
                icon,
                n,
                prefix,
            )[j]).0,
    decreases n,
{
    if n > 0 {
        let m = (n - 1) as nat;
        layer_assets_have_names_of_their_own(bundle, icon, m, prefix);
        let before = layer_assets(bundle, icon, m, prefix);
        let after = layer_assets(bundle, icon, n, prefix);
        assert forall|i: int, j: int| 0 <= i < j < after.len() implies (#[trigger] after[i]).0 != (
        #[trigger] after[j]).0 by {
            assert(after[i] == before[i]);
            if j < before.len() {
                assert(after[j] == before[j]);
            } else {
                assert(before[i].0 != after[j].0);
            }
        }
    }
}

/// How many of the first `n` groups have no name.
pub open spec fn unnamed_groups(groups: Seq<Group>, n: nat) -> nat
    decreases n,
{
    if n == 0 {
        0
    } else if groups[n - 1].name is None {
        unnamed_groups(groups, (n - 1) as nat) + 1
    } else {
        unnamed_groups(groups, (n - 1) as nat)
    }
}

/// What the `i`th group is called: groups without a name are numbered, from the
/// second on.
pub open spec fn group_label(groups: Seq<Group>, i: int) -> Seq<char> {
    match groups[i].name {
        Some(name) => name@,
        None => {
            let n = unnamed_groups(groups, (i + 1) as nat);
            if n == 1 {
                "Group"@
            } else {
                "Group "@ + decimal(n)
            }
        },
    }
}

/// The names that groups are stored under.
pub open spec fn group_facets(groups: Seq<Group>, prefix: Seq<char>) -> Seq<Seq<char>> {
    Seq::new(groups.len(), |i: int| prefix + "/"@ + group_label(groups, i))
}

/// The names that groups are stored under.
pub fn group_facet_names(icon: &IconJson, prefix: &str) -> (names: Vec<String>)
    ensures
        texts(names@) == group_facets(icon.groups@, prefix@),
{
    let mut names: Vec<String> = Vec::new();
    let mut unnamed: u128 = 0;
    let mut i: usize = 0;
    while i < icon.groups.len()
        invariant
            i <= icon.groups@.len(),
            names@.len() == i,
            unnamed == unnamed_groups(icon.groups@, i as nat),
            unnamed <= i,
            forall|j: int|
                0 <= j < i ==> (#[trigger] names@[j])@ == prefix@ + "/"@ + group_label(
                    icon.groups@,
                    j,
                ),
        decreases icon.groups.len() - i,
    {
        let mut name = prefix.to_owned();
        put_str(&mut name, "/");
        match &icon.groups[i].name {
            Some(label) => {
                put_str(&mut name, label.as_str());
            },
            None => {
                unnamed = unnamed + 1;
                if unnamed == 1 {
                    put_str(&mut name, "Group");
                } else {
                    let ghost before = name@;
                    put_str(&mut name, "Group ");
                    put_decimal(&mut name, unnamed);
                    assert(name@ =~= before + ("Group "@ + decimal(unnamed as nat)));
                }
            },
        }
        names.push(name);
        i = i + 1;
    }
    assert(texts(names@) =~= group_facets(icon.groups@, prefix@));
    names
}

/// The size that layers have if nothing else is known of them.
pub const CANVAS: u32 = 1024;

/// The size of the image of a layer.
pub open spec fn native_size(bundle: Item, path: Seq<char>) -> (u32, u32) {
    let data = match item_at(bundle, path) {
        Some(item) => file_data(item),
        None => None,
    };
    match data {
        None => (CANVAS, CANVAS),
        Some(bytes) => if ends_in(path, ".svg"@) {
            let size = svg_size(bytes);
            if size.0 > 0 && size.1 > 0 {
                size
            } else {
                (CANVAS, CANVAS)
            }
        } else {
            match image_size(extension(file_name_of(path)), bytes) {
                Some(size) => size,
                None => (CANVAS, CANVAS),
            }
        },
    }
}

/// What a file of a bundle holds.
pub fn bundle_data<'a>(bundle: &'a Item, path: &str) -> (data: Option<&'a Vec<u8>>)
    ensures
        match data {
            Some(bytes) => item_at(*bundle, path@) matches Some(item) && file_data(item) == Some(
                bytes@,
            ),
            None => item_at(*bundle, path@) matches Some(item) ==> file_data(item) is None,
        },
{
    match bundle.find(path) {
        None => None,
        Some(item) => match item {
            Item::Folder(_) => None,
            Item::File(file) => match &file.data {
                Some(data) => Some(data),
                None => None,
            },
        },
    }
}

/// The size of the image of a layer.
pub fn layer_native_size(bundle: &Item, path: &str) -> (size: (u32, u32))
    ensures
        size == native_size(*bundle, path@),
{
    match bundle_data(bundle, path) {
        None => (CANVAS, CANVAS),
        Some(data) => {
            if check_ending(path, ".svg") {
                let (width, height) = parse_svg_dimensions(data.as_slice());
                if width > 0 && height > 0 {
                    (width, height)
                } else {
                    (CANVAS, CANVAS)
                }
            } else {
                let (_, kind) = split_extension(file_name(path));
                match measure_image(kind, data.as_slice()) {
                    Some(size) => size,
                    None => (CANVAS, CANVAS),
                }
            }
        },
    }
}

/// A layer of an icon, as it is to be drawn.
#[derive(Debug)]
pub struct StackLayer {
    /// Where its image is.
    pub source: String,
    /// Whether it is glass that lets the background through.
    pub frosted: bool,
    /// Whether it is such glass, and tints the background.
    pub tinted: bool,
    /// Whether it is opaque glass with a sheen.
    pub specular: bool,
    /// The shadow it casts.
    pub shadow: Option<ShadowSpec>,
    pub group_position: Option<Position>,
    pub layer_position: Option<Position>,
    pub opacity: u32,
    pub blend: BlendMode,
    pub native_w: u32,
    pub native_h: u32,
}

/// A layer to be drawn as a mathematical value.
#[verifier::ext_equal]
pub struct StackModel {
    pub source: Seq<char>,
    pub frosted: bool,
    pub tinted: bool,
    pub specular: bool,
    pub shadow: Option<ShadowSpec>,
    pub group_position: Option<Position>,
    pub layer_position: Option<Position>,
    pub opacity: u32,
    pub blend: BlendMode,
    pub native: (u32, u32),
}

impl View for StackLayer {
    type V = StackModel;

    open spec fn view(&self) -> StackModel {
        StackModel {
            source: self.source@,
            frosted: self.frosted,
            tinted: self.tinted,
            specular: self.specular,
            shadow: self.shadow,
            group_position: self.group_position,
            layer_position: self.layer_position,
            opacity: self.opacity,
            blend: self.blend,
            native: (self.native_w, self.native_h),
        }
    }
}

/// The layers of a list.
pub open spec fn stack_views(layers: Seq<StackLayer>) -> Seq<StackModel> {
    Seq::new(layers.len(), |i: int| layers[i]@)
}

/// Whether a layer is declared as glass.
pub open spec fn declared_glass(layer: Layer, appearance: Appearance) -> bool {
    bool_of(resolved(layer.glass_specializations, plain_bool(layer.glass), appearance))
}

/// Whether a group turns its layers into glass: it lets the background through,
/// blurs it, or has a layer of glass.
pub open spec fn glass_group(group: Group, appearance: Appearance) -> bool {
    group_translucency(group, appearance).enabled || group_blur(group, appearance) is Some
        || exists|i: int|
        0 <= i < group.layers@.len() && declared_glass(#[trigger] group.layers@[i], appearance)
}

/// Whether a layer is drawn as glass: it is declared so, or its group turns it
/// into glass and it does not refuse.
pub open spec fn is_glass(group: Group, layer: Layer, appearance: Appearance) -> bool {
    declared_glass(layer, appearance) || glass_group(group, appearance) && !(layer.glass == Some(
        false,
    ) && layer.glass_specializations is None)
}

/// A layer as it is to be drawn; `None` if it is hidden or has no image that is
/// there.
pub open spec fn drawn_layer(
    bundle: Item,
    group: Group,
    layer: Layer,
    appearance: Appearance,
) -> Option<StackModel> {
    match layer.image_name {
        None => None,
        Some(image) => match located(bundle, image@) {
            None => None,
            Some(path) => if layer.hidden == Some(true) {
                None
            } else {
                let glass = is_glass(group, layer, appearance);
                let clear = group_translucency(group, appearance).enabled;
                let shadow = group_shadow(group, appearance);
                Some(
                    StackModel {
                        source: path,
                        frosted: glass && clear,
                        tinted: glass && clear && shadow.kind == ShadowKind::LayerColor,
                        specular: glass && !clear && bool_of(
                            resolved(
                                group.specular_specializations,
                                plain_bool(group.specular),
                                appearance,
                            ),
                        ),
                        shadow: if glass && shadow.kind != ShadowKind::Absent {
                            Some(shadow)
                        } else {
                            None
                        },
                        group_position: group.position,
                        layer_position: layer.position,
                        opacity: single_of(
                            resolved(layer.opacity_specializations, None, appearance),
                        ),
                        blend: blend_named(
                            blend_of(
                                resolved(layer.blend_mode_specializations, None, appearance),
                            ),
                        ),
                        native: native_size(bundle, path),
                    },
                )
            },
        },
    }
}

/// The first `n` layers as they are to be drawn, from the back to the front:
/// manifests list them from the front to the back.
pub open spec fn drawn_layers(
    bundle: Item,
    layers: Seq<(Group, Layer)>,
    n: nat,
    appearance: Appearance,
) -> Seq<StackModel>
    decreases n,
{
    if n == 0 {
        Seq::empty()
    } else {
        let rest = drawn_layers(bundle, layers, (n - 1) as nat, appearance);
        match drawn_layer(bundle, layers[n - 1].0, layers[n - 1].1, appearance) {
            Some(layer) => seq![layer] + rest,
            None => rest,
        }
    }
}

fn check_glass_group(
    group: &Group,
    effects: &IconEffects,
    Ghost(appearance): Ghost<Appearance>,
) -> (answer: bool)
    requires
        are_effects(*effects, *group, appearance),
    ensures
        answer == glass_group(*group, appearance),
{
    if effects.translucency.enabled || effects.blur_material.is_some() {
        return true;
    }
    let mut i: usize = 0;
    while i < effects.layers.len()
        invariant
            i <= effects.layers@.len(),
            are_effects(*effects, *group, appearance),
            forall|j: int| 0 <= j < i ==> !declared_glass(#[trigger] group.layers@[j], appearance),
        decreases effects.layers.len() - i,
    {
        assert(are_layer_effects(effects.layers@[i as int], group.layers@[i as int], appearance));
        if effects.layers[i].glass {
            assert(declared_glass(group.layers@[i as int], appearance));
            return true;
        }
        i = i + 1;
    }
    false
}

/// A layer as it is to be drawn.
fn make_stack_layer(
    bundle: &Item,
    group: &Group,
    layer: &Layer,
    appearance: Appearance,
) -> (out: Option<StackLayer>)
    ensures
        match out {
            Some(l) => drawn_layer(*bundle, *group, *layer, appearance) == Some(l@),
            None => drawn_layer(*bundle, *group, *layer, appearance) is None,
        },
{
    let image = match &layer.image_name {
        None => {
            return None;
        },
        Some(image) => image,
    };
    let path = match locate(bundle, image.as_str()) {
        None => {
            return None;
        },
        Some(path) => path,
    };
    match layer.hidden {
        Some(true) => {
            return None;
        },
        _ => {},
    }
    let effects = resolve_icon_effects(group, appearance);
    let own = resolve_layer(layer, appearance);
    let refuses = match layer.glass {
        Some(false) => layer.glass_specializations.is_none(),
        _ => false,
    };
    let glass = own.glass || check_glass_group(group, &effects, Ghost(appearance)) && !refuses;
    let clear = effects.translucency.enabled;
    let shadow = if glass && effects.shadow.kind != ShadowKind::Absent {
        Some(effects.shadow)
    } else {
        None
    };
    let (native_w, native_h) = layer_native_size(bundle, path.as_str());
    Some(
        StackLayer {
            source: path,
            frosted: glass && clear,
            tinted: glass && clear && effects.shadow.kind == ShadowKind::LayerColor,
            specular: glass && !clear && effects.specular,
            shadow,
            group_position: group.position,
            layer_position: layer.position,
            opacity: own.opacity,
            blend: parse_blend(own.blend_mode.as_str()),
            native_w,
            native_h,
        },
    )
}

/// The layers of an icon as they are to be drawn, from the back to the front.
pub fn collect_stack_layers(bundle: &Item, icon: &IconJson, appearance: Appearance) -> (out: Vec<
    StackLayer,
>)
    ensures
        stack_views(out@) == drawn_layers(
            *bundle,
            layers_of(icon.groups@, icon.groups@.len()),
            layers_of(icon.groups@, icon.groups@.len()).len(),
            appearance,
        ),
{
    let layers = icon.iter_layers();
    let ghost all = layers_of(icon.groups@, icon.groups@.len());
    let mut out: Vec<StackLayer> = Vec::new();
    let mut i: usize = layers.len();
    assert(stack_views(out@) + drawn_layers(*bundle, all, all.len(), appearance) =~= drawn_layers(
        *bundle,
        all,
        all.len(),
        appearance,
    ));
    while i > 0
        invariant
            i <= layers@.len() == all.len(),
            layer_views(layers@) == all,
            stack_views(out@) + drawn_layers(*bundle, all, i as nat, appearance) == drawn_layers(
                *bundle,
                all,
                all.len(),
                appearance,
            ),
        decreases i,
    {
        i = i - 1;
        let (group, layer) = layers[i];
        assert(all[i as int] == layer_views(layers@)[i as int]);
        let ghost before = out@;
        let ghost rest = drawn_layers(*bundle, all, i as nat, appearance);
        match make_stack_layer(bundle, group, layer, appearance) {
            Some(l) => {
                out.push(l);
                assert(stack_views(out@) =~= stack_views(before).push(l@));
                assert(stack_views(out@) + rest =~= stack_views(before) + (seq![l@] + rest));
            },
            None => {},
        }
    }
    assert(stack_views(out@) + drawn_layers(*bundle, all, 0, appearance) =~= stack_views(out@));
    out
}

/// The color of a background: red, green and blue, each by the bits of a
/// double-precision number.
pub open spec fn rgb_of(components: Seq<u64>) -> Option<Seq<u64>> {
    if components.len() == 2 {
        Some(seq![components[0], components[0], components[0]])
    } else if components.len() == 4 {
        Some(seq![components[0], components[1], components[2]])
    } else {
        None
    }
}

/// A color in red, green and blue; black if it has another number of components.
pub open spec fn color_rgb(color: ColorModel) -> Seq<u64> {
    match rgb_of(color.components) {
        Some(rgb) => rgb,
        None => seq![0u64, 0u64, 0u64],
    }
}

fn find_rgb(components: &Vec<u64>) -> (rgb: Option<[u64; 3]>)
    ensures
        match rgb {
            Some(c) => rgb_of(components@) == Some(c@),
            None => rgb_of(components@) is None,
        },
{
    if components.len() == 2 {
        let rgb: [u64; 3] = [components[0], components[0], components[0]];
        assert(rgb@ =~= seq![components@[0], components@[0], components@[0]]);
        Some(rgb)
    } else if components.len() == 4 {
        let rgb: [u64; 3] = [components[0], components[1], components[2]];
        assert(rgb@ =~= seq![components@[0], components@[1], components@[2]]);
        Some(rgb)
    } else {
        None
    }
}

/// What is drawn below the layers of an icon.
#[derive(Debug, Clone, Copy)]
pub enum Background {
    /// One color.
    Flat([u64; 3]),
    /// From one color to another: the colors, and where the gradient starts and
    /// stops.
    Gradient([u64; 3], [u64; 3], [u32; 4]),
}

/// A background as a mathematical value.
pub enum BackgroundModel {
    Flat(Seq<u64>),
    Gradient(Seq<u64>, Seq<u64>, Seq<u32>),
}

impl View for Background {
    type V = BackgroundModel;

    open spec fn view(&self) -> BackgroundModel {
        match self {
            Background::Flat(rgb) => BackgroundModel::Flat(rgb@),
            Background::Gradient(start, stop, geometry) => BackgroundModel::Gradient(
                start@,
                stop@,
                geometry@,
            ),
        }
    }
}

/// A background behind an option.
pub open spec fn background_view(b: Option<Background>) -> Option<BackgroundModel> {
    match b {
        Some(background) => Some(background@),
        None => None,
    }
}

/// The color that has a name.
pub open spec fn color_named(colors: Seq<ColorModel>, name: Seq<char>, from: int) -> Option<
    ColorModel,
>
    decreases colors.len() - from,
{
    if from < 0 || from >= colors.len() {
        None
    } else if colors[from].name == name {
        Some(colors[from])
    } else {
        color_named(colors, name, from + 1)
    }
}

/// The background that a gradient makes: from its first color to its last.
pub open spec fn gradient_background(gradient: GradientModel, colors: Seq<ColorModel>) -> Option<
    BackgroundModel,
> {
    if gradient.stops.len() == 0 {
        None
    } else {
        match (
            color_named(colors, gradient.stops[0].1, 0),
            color_named(colors, gradient.stops.last().1, 0),
        ) {
            (Some(first), Some(last)) => Some(
                BackgroundModel::Gradient(color_rgb(first), color_rgb(last), gradient.geometry),
            ),
            _ => None,
        }
    }
}

fn find_color_rgb(colors: &Vec<ColorAsset>, name: &str) -> (rgb: Option<[u64; 3]>)
    ensures
        match rgb {
            Some(c) => color_named(color_views(colors@), name@, 0) matches Some(color) && color_rgb(
                color,
            ) == c@,
            None => color_named(color_views(colors@), name@, 0) is None,
        },
{
    let mut i: usize = 0;
    while i < colors.len()
        invariant
            i <= colors@.len(),
            color_named(color_views(colors@), name@, 0) == color_named(
                color_views(colors@),
                name@,
                i as int,
            ),
        decreases colors.len() - i,
    {
        if same_text(colors[i].facet_name.as_str(), name) {
            return match find_rgb(&colors[i].components) {
                Some(rgb) => Some(rgb),
                None => {
                    let black: [u64; 3] = [0, 0, 0];
                    assert(black@ =~= seq![0u64, 0u64, 0u64]);
                    Some(black)
                },
            };
        }
        i = i + 1;
    }
    None
}

/// The background that a gradient makes.
pub fn resolve_gradient_fill(gradient: &GradientAsset, colors: &Vec<ColorAsset>) -> (fill: Option<
    Background,
>)
    ensures
        background_view(fill) == gradient_background(gradient@, color_views(colors@)),
{
    let n: usize = gradient.stops.len();
    if n == 0 {
        return None;
    }
    match (
        find_color_rgb(colors, gradient.stops[0].color.as_str()),
        find_color_rgb(colors, gradient.stops[n - 1].color.as_str()),
    ) {
        (Some(first), Some(last)) => Some(Background::Gradient(first, last, gradient.geometry)),
        _ => None,
    }
}

/// The background of the `i`th gradient, if there is one.
pub open spec fn nth_background(p: PaletteModel, i: int) -> Option<BackgroundModel> {
    if i < p.gradients.len() {
        gradient_background(p.gradients[i], p.colors)
    } else {
        None
    }
}

fn find_background(p: &Palette, i: usize) -> (fill: Option<Background>)
    ensures
        background_view(fill) == nth_background(p@, i as int),
{
    if i < p.gradients.len() {
        resolve_gradient_fill(&p.gradients[i], &p.colors)
    } else {
        None
    }
}

/// The color of an icon with a solid fill.
pub open spec fn solid_rgb<C: Fn(&str) -> Option<u64>>(component: C, icon: IconJson) -> Option<
    Seq<u64>,
> {
    match icon.fill {
        Some(Fill::Structured(value)) => match text_member(value, "solid"@) {
            Some(spec) => match color_spec(component, spec) {
                Some((_, components)) => rgb_of(components),
                None => None,
            },
            None => None,
        },
        _ => None,
    }
}

/// The color of an icon with a solid fill.
pub fn solid_fill_color<C: Fn(&str) -> Option<u64>>(icon: &IconJson, component: &C) -> (rgb: Option<
    [u64; 3],
>)
    requires
        is_text_function(*component),
    ensures
        match rgb {
            Some(c) => solid_rgb(*component, *icon) == Some(c@),
            None => solid_rgb(*component, *icon) is None,
        },
{
    match &icon.fill {
        Some(fill) => match fill {
            Fill::Structured(value) => match value.get_text("solid") {
                Some(spec) => match parse_color_spec(spec, component) {
                    Some((_, components)) => find_rgb(&components),
                    None => None,
                },
                None => None,
            },
            Fill::Keyword(_) => None,
        },
        None => None,
    }
}

/// The backgrounds of the light and of the dark appearance: a solid fill is the
/// light one and the first gradient the dark one; else the first two gradients are.
pub open spec fn backgrounds<C: Fn(&str) -> Option<u64>>(
    component: C,
    icon: IconJson,
    p: PaletteModel,
) -> (Option<BackgroundModel>, Option<BackgroundModel>) {
    match solid_rgb(component, icon) {
        Some(rgb) => (Some(BackgroundModel::Flat(rgb)), nth_background(p, 0)),
        None => (nth_background(p, 0), nth_background(p, 1)),
    }
}

/// The backgrounds of the light and of the dark appearance.
pub fn resolve_background_fills<C: Fn(&str) -> Option<u64>>(
    icon: &IconJson,
    p: &Palette,
    component: &C,
) -> (fills: (Option<Background>, Option<Background>))
    requires
        is_text_function(*component),
    ensures
        (background_view(fills.0), background_view(fills.1)) == backgrounds(*component, *icon, p@),
{
    match solid_fill_color(icon, component) {
        Some(rgb) => (Some(Background::Flat(rgb)), find_background(p, 0)),
        None => (find_background(p, 0), find_background(p, 1)),
    }
}

/// What is compiled of a bundle.
#[derive(Debug)]
pub struct IconPlan {
    /// What the icon is called outside of the archive.
    pub icon_name: String,
    /// What it is called in the archive.
    pub facet_prefix: String,
    /// Whether both are the same.
    pub names_match: bool,
    /// The images of the layers; the icon is drawn from the first.
    pub sources: Vec<String>,
    pub layer_assets: Vec<LayerAsset>,
    pub group_facet_names: Vec<String>,
    pub palette: Palette,
    /// Whether there is an alternative for the dark appearance.
    pub emit_variant_axis: bool,
}

/// Whether an icon has an alternative for the dark appearance.
pub open spec fn has_variants(icon: IconJson) -> bool {
    icon.fill_specializations matches Some(specs) && specs@.len() > 0
}

/// Whether a plan is that of a bundle.
pub open spec fn is_icon_plan<C: Fn(&str) -> Option<u64>>(
    plan: IconPlan,
    component: C,
    bundle: Item,
    path: Seq<char>,
    app_icon: Option<Seq<char>>,
    json: Json,
    icon: IconJson,
) -> bool {
    let own_name = stem_or(path, ""@);
    let prefix = stem_or(path, "Assets"@);
    &&& plan.icon_name@ == (match app_icon {
        Some(name) => name,
        None => own_name,
    })
    &&& plan.facet_prefix@ == prefix
    &&& plan.names_match == (plan.icon_name@ == own_name)
    &&& texts(plan.sources@) == source_images(bundle, json)
    &&& asset_views(plan.layer_assets@) == layer_assets(
        bundle,
        icon,
        layers_of(icon.groups@, icon.groups@.len()).len(),
        prefix,
    )
    &&& texts(plan.group_facet_names@) == group_facets(icon.groups@, prefix)
    &&& plan.palette@ == (match icon_palette(component, icon, prefix) {
        Some(p) => p,
        None => PaletteModel { colors: Seq::empty(), gradients: Seq::empty() },
    })
    &&& plan.emit_variant_axis == has_variants(icon)
}

/// Whether the document that an icon is drawn from has no size.
pub open spec fn lacks_size(bundle: Item, path: Seq<char>) -> bool {
    ends_in(path, ".svg"@) && (item_at(bundle, path) matches Some(item) && file_data(
        item,
    ) matches Some(data) && (svg_size(data).0 == 0 || svg_size(data).1 == 0))
}

/// Whether the document that an icon is drawn from cannot be read.
pub open spec fn lacks_data(bundle: Item, path: Seq<char>) -> bool {
    ends_in(path, ".svg"@) && (item_at(bundle, path) matches Some(item) ==> file_data(
        item,
    ) is None)
}

/// Why a bundle cannot be compiled, if so.
pub open spec fn plan_fault(bundle: Item, json: Json) -> Option<IconFault> {
    let sources = source_images(bundle, json);
    if member(json, "groups"@) is None {
        Some(IconFault::NoGroups)
    } else if manifest_fault(bundle, json) is Some {
        manifest_fault(bundle, json)
    } else if sources.len() > 0 && lacks_data(bundle, sources[0]) {
        Some(IconFault::Unreadable)
    } else if sources.len() > 0 && lacks_size(bundle, sources[0]) {
        Some(IconFault::NoSize(sources[0]))
    } else {
        None
    }
}

/// Decides what is compiled of a bundle; nothing if it has no images.
pub fn plan_icon<C: Fn(&str) -> Option<u64>>(
    bundle: &Item,
    path: &str,
    app_icon: Option<&str>,
    json: &Json,
    icon: &IconJson,
    component: &C,
) -> (result: Result<Option<IconPlan>, IconError>)
    requires
        is_text_function(*component),
    ensures
        match result {
            Err(e) => plan_fault(*bundle, *json) == Some(e@),
            Ok(None) => plan_fault(*bundle, *json) is None && source_images(*bundle, *json).len()
                == 0,
            Ok(Some(plan)) => plan_fault(*bundle, *json) is None && source_images(
                *bundle,
                *json,
            ).len() > 0 && is_icon_plan(
                plan,
                *component,
                *bundle,
                path@,
                str_view(app_icon),
                *json,
                *icon,
            ),
        },
{
    if json.get("groups").is_none() {
        return Err(IconError::NoGroups);
    }
    match validate_layer_image_refs(bundle, json) {
        Ok(()) => {},
        Err(e) => {
            return Err(e);
        },
    }
    let sources = find_all_source_images(bundle, json);
    assert(texts(sources@).len() == sources@.len());
    if sources.len() == 0 {
        return Ok(None);
    }
    let primary = sources[0].as_str();
    assert(texts(sources@)[0] == primary@);
    if check_ending(primary, ".svg") {
        match bundle_data(bundle, primary) {
            None => {
                return Err(IconError::Unreadable);
            },
            Some(data) => {
                let (width, height) = parse_svg_dimensions(data.as_slice());
                if width == 0 || height == 0 {
                    return Err(IconError::NoSize(primary.to_owned()));
                }
            },
        }
    }
    let own_name = file_stem_or(path, "");
    let icon_name = match app_icon {
        Some(name) => name.to_owned(),
        None => own_name.to_owned(),
    };
    let names_match = same_text(icon_name.as_str(), own_name);
    let facet_prefix = bundle_facet_prefix(path);
    let layer_assets = collect_layer_assets(bundle, icon, facet_prefix.as_str());
    let group_names = group_facet_names(icon, facet_prefix.as_str());
    let palette = match fill_assets(facet_prefix.as_str(), icon, component) {
        Some(p) => p,
        None => {
            let p = Palette { colors: Vec::new(), gradients: Vec::new() };
            assert(p@ =~= (PaletteModel { colors: Seq::empty(), gradients: Seq::empty() }));
            p
        },
    };
    let emit_variant_axis = match &icon.fill_specializations {
        Some(specs) => specs.len() > 0,
        None => false,
    };
    Ok(
        Some(
            IconPlan {
                icon_name,
                facet_prefix,
                names_match,
                sources,
                layer_assets,
                group_facet_names: group_names,
                palette,
                emit_variant_axis,
            },
        ),
    )
}

} // verus!
