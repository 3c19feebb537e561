//! What is checked of an icon bundle, and what its parts are called and stored as.

use vstd::prelude::*;

use crate::compiler::sheet_csi;
use crate::files::{file_name_of, item_at, Item};
use crate::icon_bundle::{
    asset_facet, color_rgb, fault_text, group_facets, groups_fault, layer_assets, layer_fault,
    layers_fault, located, unnamed_groups, with_source, IconFault, Sources,
};
use crate::icon_car::{placed_rendition, rendered_list, sheet_rendition, with_placed};
use crate::icon_json::{layers_of, Group, IconJson};
use crate::icon_renditions::{with_group_names, ListModel, Target};
use crate::json::{items_of, text_member, Json};
use crate::naming::value_of;
use crate::palette::ColorModel;
use crate::part_laws::names_come_apart;
use crate::rendition::Rendition;
use crate::report_laws::{lemma_says, says};
use crate::set_laws::{begins_with, text_under};
use crate::sheets::{intent_of, Sheet};
use crate::text::decimal;

verus! {

/// A layer is faulty if it has no image name, or if there is no such image; the error
/// names the layer and the image.
pub proof fn faulty_layers_are_told(bundle: Item, layer: Json, image: Seq<char>)
    ensures
        text_member(layer, "image-name"@) is None ==> layer_fault(bundle, layer) == Some(
            IconFault::NoImageName(text_under(layer, "name"@, "(unnamed)"@)),
        ),
        text_member(layer, "image-name"@) == Some(image) && located(bundle, image) is None
            ==> layer_fault(bundle, layer) == Some(
            IconFault::NoImage(text_under(layer, "name"@, "(unnamed)"@), image),
        ),
        text_member(layer, "image-name"@) == Some(image) && located(bundle, image) is Some
            ==> layer_fault(bundle, layer) is None,
{
}

/// The first faulty layer of a group is told; a group without one is sound.
pub proof fn first_faulty_layers_are_told(bundle: Item, layers: Seq<Json>, n: nat, i: int)
    requires
        n <= layers.len(),
        0 <= i < n,
        forall|j: int| 0 <= j < i ==> layer_fault(bundle, #[trigger] layers[j]) is None,
    ensures
        layer_fault(bundle, layers[i]) is Some ==> layers_fault(bundle, layers, n) == layer_fault(
            bundle,
            layers[i],
        ),
        i == n - 1 && layer_fault(bundle, layers[i]) is None ==> layers_fault(bundle, layers, n)
            is None,
    decreases n,
{
    if i < n - 1 {
        first_faulty_layers_are_told(bundle, layers, (n - 1) as nat, i);
    } else {
        lemma_sound_layers(bundle, layers, (n - 1) as nat);
    }
}

proof fn lemma_sound_layers(bundle: Item, layers: Seq<Json>, n: nat)
    requires
        n <= layers.len(),
        forall|j: int| 0 <= j < n ==> layer_fault(bundle, #[trigger] layers[j]) is None,
    ensures
        layers_fault(bundle, layers, n) is None,
    decreases n,
{
    if n > 0 {
        lemma_sound_layers(bundle, layers, (n - 1) as nat);
    }
}

/// A manifest is sound exactly where all layers of all groups are.
pub proof fn sound_manifests_have_sound_groups(bundle: Item, groups: Seq<Json>, n: nat)
    requires
        n <= groups.len(),
    ensures
        groups_fault(bundle, groups, n) is None <==> forall|i: int|
            0 <= i < n ==> sound_group(bundle, #[trigger] groups[i]),
    decreases n,
{
    if n > 0 {
        sound_manifests_have_sound_groups(bundle, groups, (n - 1) as nat);
        lemma_sound_group(bundle, items_of(groups[n - 1], "layers"@));
        if groups_fault(bundle, groups, n) is None {
            assert forall|i: int| 0 <= i < n implies sound_group(bundle, #[trigger] groups[i]) by {
                if i < n - 1 {
                    assert(sound_group(bundle, groups[i]));
                }
            }
        } else if forall|i: int| 0 <= i < n ==> sound_group(bundle, #[trigger] groups[i]) {
            assert(sound_group(bundle, groups[n - 1]));
        }
    }
}

/// Whether every layer of a group names an image that is there.
pub open spec fn sound_group(bundle: Item, group: Json) -> bool {
    let layers = items_of(group, "layers"@);
    forall|i: int|
        0 <= i < layers.len() ==> text_member(#[trigger] layers[i], "image-name"@) is Some
            && located(bundle, text_member(layers[i], "image-name"@)->0) is Some
}

proof fn lemma_sound_group(bundle: Item, layers: Seq<Json>)
    ensures
        layers_fault(bundle, layers, layers.len()) is None <==> forall|i: int|
            0 <= i < layers.len() ==> text_member(#[trigger] layers[i], "image-name"@) is Some
                && located(bundle, text_member(layers[i], "image-name"@)->0) is Some,
{
    if layers_fault(bundle, layers, layers.len()) is None {
        assert forall|i: int| 0 <= i < layers.len() implies text_member(
            #[trigger] layers[i],
            "image-name"@,
        ) is Some && located(bundle, text_member(layers[i], "image-name"@)->0) is Some by {
            lemma_each_sound(bundle, layers, layers.len(), i);
        }
    } else if forall|i: int|
        0 <= i < layers.len() ==> text_member(#[trigger] layers[i], "image-name"@) is Some
            && located(bundle, text_member(layers[i], "image-name"@)->0) is Some {
        lemma_sound_layers(bundle, layers, layers.len());
    }
}

proof fn lemma_each_sound(bundle: Item, layers: Seq<Json>, n: nat, i: int)
    requires
        n <= layers.len(),
        0 <= i < n,
        layers_fault(bundle, layers, n) is None,
    ensures
        layer_fault(bundle, layers[i]) is None,
    decreases n,
{
    if i < n - 1 {
        lemma_each_sound(bundle, layers, (n - 1) as nat, i);
    }
}

/// An image is looked for among the assets of a bundle first, next in the bundle
/// itself.
pub proof fn images_are_looked_for(bundle: Item, image: Seq<char>)
    requires
        image.len() > 0,
        image[0] != '/',
    ensures
        item_at(bundle, "Assets/"@ + image) is Some ==> located(bundle, image) == Some(
            "Assets/"@ + image,
        ),
        item_at(bundle, "Assets/"@ + image) is None && item_at(bundle, image) is Some ==> located(
            bundle,
            image,
        ) == Some(image),
        item_at(bundle, "Assets/"@ + image) is None && item_at(bundle, image) is None ==> located(
            bundle,
            image,
        ) is None,
{
    reveal_strlit("Assets");
    reveal_strlit("/");
    reveal_strlit("Assets/");
    assert("Assets/"@ + image =~= "Assets"@ + "/"@ + image);
    assert("Assets"@.len() == 6 && "Assets"@[5] == 's');
}

/// The image of a layer is stored under its name without the extension, among the assets
/// of the icon.
pub proof fn images_have_names(
    prefix: Seq<char>,
    image: Seq<char>,
    base: Seq<char>,
    kind: Seq<char>,
)
    requires
        base.len() > 0,
        !kind.contains('.'),
        file_name_of(image) == base + seq!['.'] + kind,
    ensures
        asset_facet(prefix, image) == prefix + "_Assets/"@ + base,
{
    names_come_apart(base, kind);
}

/// The image of a layer is listed where it is, unless its name came before.
pub proof fn images_are_listed_once(
    s: Sources,
    bundle: Item,
    layer: Json,
    image: Seq<char>,
    path: Seq<char>,
)
    requires
        text_member(layer, "image-name"@) == Some(image),
        located(bundle, image) == Some(path),
    ensures
        ({
            let out = with_source(s, bundle, layer);
            if s.seen.contains(image) {
                out == s
            } else {
                out.seen == s.seen.push(image) && out.paths == s.paths.push(path)
            }
        }),
{
}

/// The source of a layer stands under the name of its file in the assets of the icon,
/// once.
pub proof fn layer_sources_are_listed(
    bundle: Item,
    icon: IconJson,
    n: nat,
    prefix: Seq<char>,
    i: int,
)
    requires
        n <= layers_of(icon.groups@, icon.groups@.len()).len(),
        0 <= i < n,
        layers_of(icon.groups@, icon.groups@.len())[i].1.image_name is Some,
        located(bundle, layers_of(icon.groups@, icon.groups@.len())[i].1.image_name->0@) is Some,
    ensures
        has_source(
            layer_assets(bundle, icon, n, prefix),
            asset_facet(prefix, layers_of(icon.groups@, icon.groups@.len())[i].1.image_name->0@),
        ),
    decreases n,
{
    let facet = asset_facet(
        prefix,
        layers_of(icon.groups@, icon.groups@.len())[i].1.image_name->0@,
    );
    let before = layer_assets(bundle, icon, (n - 1) as nat, prefix);
    let all = layer_assets(bundle, icon, n, prefix);
    if i < n - 1 {
        layer_sources_are_listed(bundle, icon, (n - 1) as nat, prefix, i);
        let k = choose|k: int| 0 <= k < before.len() && (#[trigger] before[k]).0 == facet;
        assert(all[k].0 == facet);
    } else if all.len() > before.len() {
        assert(all[before.len() as int].0 == facet);
    } else {
        let k = choose|k: int| 0 <= k < before.len() && #[trigger] before[k].0 == facet;
        assert(all[k].0 == facet);
    }
}

/// Whether a list holds a source under a name.
pub open spec fn has_source(assets: Seq<(Seq<char>, Seq<char>)>, facet: Seq<char>) -> bool {
    exists|k: int| 0 <= k < assets.len() && (#[trigger] assets[k]).0 == facet
}

/// A group is stored under its own name behind the prefix; the groups without one are
/// counted.
pub proof fn groups_have_labels(groups: Seq<Group>, prefix: Seq<char>, i: int)
    requires
        0 <= i < groups.len(),
    ensures
        group_facets(groups, prefix).len() == groups.len(),
        groups[i].name matches Some(name) ==> group_facets(groups, prefix)[i] == prefix + "/"@
            + name@,
        groups[i].name is None && (forall|j: int|
            0 <= j < i ==> (#[trigger] groups[j]).name is Some) ==> group_facets(groups, prefix)[i]
            == prefix + "/"@ + "Group"@,
        groups[i].name is None && i > 0 && groups[i - 1].name is None && unnamed_groups(
            groups,
            i as nat,
        ) == 1 ==> group_facets(groups, prefix)[i] == prefix + "/"@ + ("Group "@ + decimal(2)),
{
    if forall|j: int| 0 <= j < i ==> (#[trigger] groups[j]).name is Some {
        lemma_all_named(groups, i as nat);
    }
}

proof fn lemma_all_named(groups: Seq<Group>, n: nat)
    requires
        n <= groups.len(),
        forall|j: int| 0 <= j < n ==> (#[trigger] groups[j]).name is Some,
    ensures
        unnamed_groups(groups, n) == 0,
    decreases n,
{
    if n > 0 {
        lemma_all_named(groups, (n - 1) as nat);
    }
}

/// A gray has its level in red, green and blue; a color has its own; anything else is
/// black.
pub proof fn colors_are_seen(color: ColorModel)
    ensures
        color_rgb(color).len() == 3,
        color.components.len() == 2 ==> color_rgb(color)[0] == color.components[0] && color_rgb(
            color,
        )[1] == color.components[0] && color_rgb(color)[2] == color.components[0],
        color.components.len() == 4 ==> color_rgb(color)[0] == color.components[0] && color_rgb(
            color,
        )[1] == color.components[1] && color_rgb(color)[2] == color.components[2],
        color.components.len() != 2 && color.components.len() != 4 ==> color_rgb(color) == seq![
            0u64,
            0u64,
            0u64,
        ],
{
}

/// A sheet of an icon is stored with the size and the format of its atlas.
pub proof fn icon_sheets_are_stored(t: Target, sheet: Sheet, variant: u16)
    ensures
        ({
            let r = sheet_rendition(t, sheet, variant);
            &&& r.element == 9
            &&& r.part == 181
            &&& r.scale == 2
            &&& r.width == sheet.atlas.width
            &&& r.height == sheet.atlas.height
            &&& r.pixel_format == sheet.atlas.pixel_format@
            &&& r.layout == 1004
            &&& r.variant == variant
            &&& r.csi_override == Some(sheet_csi(sheet, t.min_deploy, t.platform))
        }),
{
    reveal(sheet_rendition);
}

/// The icons of a sheet follow it in order.
pub proof fn icons_follow_their_sheet(
    t: Target,
    l: ListModel,
    sheet: Sheet,
    identifier: u16,
    variant: u16,
    n: nat,
    i: int,
)
    requires
        n <= sheet.atlas.images@.len(),
        0 <= i < n,
    ensures
        ({
            let out = with_placed(t, l, sheet, identifier, variant, n).renditions;
            &&& out.len() == l.renditions.len() + n
            &&& begins_with(out, l.renditions)
            &&& out[l.renditions.len() + i] == placed_rendition(
                t,
                sheet,
                sheet.atlas.images@[i],
                identifier,
                variant,
            )
        }),
    decreases n,
{
    lemma_placed_len(t, l, sheet, identifier, variant, (n - 1) as nat);
    if i < n - 1 {
        icons_follow_their_sheet(t, l, sheet, identifier, variant, (n - 1) as nat, i);
    }
}

proof fn lemma_placed_len(
    t: Target,
    l: ListModel,
    sheet: Sheet,
    identifier: u16,
    variant: u16,
    n: nat,
)
    ensures
        with_placed(t, l, sheet, identifier, variant, n).renditions.len() == l.renditions.len() + n,
        begins_with(with_placed(t, l, sheet, identifier, variant, n).renditions, l.renditions),
    decreases n,
{
    if n > 0 {
        lemma_placed_len(t, l, sheet, identifier, variant, (n - 1) as nat);
    }
}

/// The intent of an image on a sheet is the one it has; without one a template is told
/// from other images.
pub proof fn intents_are_told(r: Rendition)
    ensures
        r.template_rendering_intent >= 0 ==> intent_of(r) == r.template_rendering_intent,
        r.template_rendering_intent < 0 && r.is_template ==> intent_of(r) == 2,
        r.template_rendering_intent < 0 && !r.is_template ==> intent_of(r) == 4,
{
}

/// Icons and the pictures of brands are not given to the deepmap encoder, nor are pixels
/// in other formats than color and gray of eight bits.
pub proof fn deepmaps_are_of_images(r: Rendition)
    ensures
        r.may_use_deepmap() <==> {
            &&& r.part != 220 && r.part != 208 && r.part != 209
            &&& r.pixel_format@ == seq![66u8, 71u8, 82u8, 65u8] || r.pixel_format@ == seq![
                32u8,
                56u8,
                65u8,
                71u8,
            ]
        },
{
}

/// An error names the layer, and the image that is missing or the file without a size.
pub proof fn errors_say_what_is_wrong(layer: Seq<char>, image: Seq<char>)
    ensures
        says(fault_text(IconFault::NoImageName(layer)), "the layer \""@ + layer),
        says(fault_text(IconFault::NoImage(layer, image)), "the layer \""@ + layer),
        says(
            fault_text(IconFault::NoImage(layer, image)),
            "\" references an image named \""@ + image + "\" that does not exist"@,
        ),
        says(fault_text(IconFault::NoSize(image)), "could not determine intrinsic size of "@ + image),
{
    let none = Seq::<char>::empty();
    let first = "the layer \""@ + layer;
    let middle = "\" references an image named \""@;
    let last = "\" that does not exist"@;
    lemma_says(none, first, "\" does not have an image name"@);
    assert(none + first + "\" does not have an image name"@ =~= fault_text(
        IconFault::NoImageName(layer),
    ));
    lemma_says(none, first, middle + image + last);
    assert(none + first + (middle + image + last) =~= fault_text(IconFault::NoImage(layer, image)));
    lemma_says(first, middle + image + last, none);
    assert(first + (middle + image + last) + none =~= fault_text(IconFault::NoImage(layer, image)));
    let size = "could not determine intrinsic size of "@ + image;
    lemma_says(none, size, none);
    assert(none + size + none =~= size);
}

/// The rendered sizes of an icon end with the list of the sizes, under the icon's name.
pub proof fn rendered_icons_end_with_their_sizes(
    t: Target,
    name: Seq<char>,
    identifier: u16,
    variants: bool,
    light: Seq<Vec<u8>>,
    dark: Seq<Vec<u8>>,
    sheets: Seq<Sheet>,
    dark_sheets: Seq<Sheet>,
)
    ensures
        ({
            let l = rendered_list(
                t,
                name,
                identifier,
                variants,
                light,
                dark,
                sheets,
                dark_sheets,
            );
            &&& l.renditions.len() > 0
            &&& l.renditions.last().part == 218
            &&& l.renditions.last().layout == 1010
            &&& l.renditions.last().name == name
            &&& l.renditions.last().identifier == identifier
            &&& l.facets.last().0 == name
            &&& l.facets.last().1.element == 85
            &&& l.facets.last().1.part == Some(220u16)
            &&& l.facets.last().1.identifier == identifier
        }),
{
    reveal(rendered_list);
}

/// Every group of an icon gets its name.
pub proof fn groups_are_named<H: Fn(&str) -> u16>(
    hash: H,
    l: ListModel,
    labels: Seq<Seq<char>>,
    n: nat,
    i: int,
)
    requires
        n <= labels.len(),
        0 <= i < n,
    ensures
        ({
            let out = with_group_names(hash, l, labels, n);
            let facet = out.facets[l.facets.len() + i];
            &&& out.renditions == l.renditions
            &&& out.facets.len() == l.facets.len() + n
            &&& facet.0 == labels[i]
            &&& facet.1.element == 85
            &&& facet.1.part == Some(246u16)
            &&& facet.1.identifier == value_of(hash, labels[i])
        }),
    decreases n,
{
    lemma_names_len(hash, l, labels, (n - 1) as nat);
    if i < n - 1 {
        groups_are_named(hash, l, labels, (n - 1) as nat, i);
    }
}

proof fn lemma_names_len<H: Fn(&str) -> u16>(
    hash: H,
    l: ListModel,
    labels: Seq<Seq<char>>,
    n: nat,
)
    ensures
        with_group_names(hash, l, labels, n).facets.len() == l.facets.len() + n,
        with_group_names(hash, l, labels, n).renditions == l.renditions,
    decreases n,
{
    if n > 0 {
        lemma_names_len(hash, l, labels, (n - 1) as nat);
    }
}

} // verus!
