//! The archive of an `.icon` bundle.

use vstd::prelude::*;
use vstd::utf8::encode_utf8;

use crate::archive::{archive_bytes, archive_contents, archive_fits, build_archive};
use crate::bitmapkeys::{
    bitmap_value, column_at, find_column, has_column, key_column, make_bitmap_value,
};
use crate::bom::raw_contents;
use crate::bytes::{copy_of, pair_contents, zeros};
use crate::car::{
    appearance_entries, car_header, colorspace_for_pixel_format, colorspace_of_format,
    compute_keyformat, extended_metadata, facet_value, keyformat_block, mac_columns,
    make_appearancekeys_entries, make_carheader_versioned, make_extended_metadata,
    make_facetkey_value, make_keyformat, ATTR_IDENTIFIER, ELEMENT_PACKED, LAYOUT_NAME_LIST,
    LAYOUT_PACKED_IMAGE, PART_ICON, PART_REGULAR,
};
use crate::catalog::models;
use crate::compiler::{
    can_be_stored, lemma_answers, make_sheet_csi, sheet_csi, some_dim1, some_dim2, some_direction,
    some_variant, stored_entry, texts_fit,
};
use crate::csi::{build_packed_image_csi, csi, packed_image_tlv, percent};
use crate::facets::Facet;
use crate::files::Item;
use crate::grouping::{PACK_MAX_HEIGHT, PACK_MAX_WIDTH};
use crate::icon_bundle::{asset_views, IconError, IconFault, IconPlan};
use crate::icon_json::Group;
use crate::icon_names::{pre_rendered, pre_rendered_name};
use crate::icon_renditions::{
    add_assets, add_group_names, add_palette, add_stacks, facet_views, find_icon_format, icon_dim2,
    icon_entries, icon_format, icon_side, icon_size, lemma_icon_sides, macos_icon_size,
    make_size_list, make_sized_icon, plus_name, plus_rendition, size_number, sized_icon,
    with_assets, with_group_names, with_palette, with_stacks, ATLAS_SIZES, ICON_SIZES, IconList,
    ListModel, Target,
};
use crate::naming::{ask, is_text_function, value_of};
use crate::order::{arranged, first_keys, is_stable_order, sort_pairs, sorted_pairs, texts};
use crate::packer::{
    atlases_pack, bytes_per_pixel, images_drawn, lemma_drawable, pack_images_split, packing_order,
    size_keys, Atlas, PackedImage,
};
use crate::platform::deployment_platform_name;
use crate::rendition::{plain_rendition, sizes_rendition, Rendition, RenditionModel};
use crate::sheets::{lemma_atlases_small, sheet_ok, Sheet};

verus! {

/// The version of the framework that archives of icons are made for.
pub const ICON_COREUI: u32 = 975;

/// Whether an image is the unplaced one of a rendered icon.
pub open spec fn is_icon_image(
    image: PackedImage,
    icon_name: Seq<char>,
    identifier: u16,
    i: int,
    variants: bool,
    variant: u16,
    pixels: Seq<u8>,
) -> bool {
    &&& image.name@ == pre_rendered(
        icon_name,
        icon_size(i).0,
        icon_size(i).1,
        "NSAppearanceNameSystem"@,
    )
    &&& image.identifier == identifier
    &&& image.width == icon_side(i)
    &&& image.height == icon_side(i)
    &&& image.pixel_data@ == pixels
    &&& image.pixel_format@ == icon_format(variants, variant)
    &&& image.scale == icon_size(i).1
    &&& image.part == PART_ICON
    &&& image.dim2 == size_number(icon_size(i).0)
    &&& image.variant == variant
}

/// Whether images are the unplaced ones of the small sizes of an icon.
pub open spec fn are_icon_images(
    images: Seq<PackedImage>,
    icon_name: Seq<char>,
    identifier: u16,
    variants: bool,
    variant: u16,
    pixels: Seq<Vec<u8>>,
) -> bool {
    &&& images.len() == ATLAS_SIZES
    &&& forall|i: int|
        0 <= i < ATLAS_SIZES ==> is_icon_image(
            #[trigger] images[i],
            icon_name,
            identifier,
            i,
            variants,
            variant,
            pixels[i]@,
        )
}

/// Whether a sheet is a packed atlas of an icon, drawn.
pub open spec fn is_icon_sheet(sheet: Sheet, packed: Atlas, variant: u16) -> bool {
    &&& sheet.atlas.width == packed.width
    &&& sheet.atlas.height == packed.height
    &&& sheet.atlas.images@ == packed.images@
    &&& sheet.atlas.pixel_format == packed.pixel_format
    &&& sheet.atlas.scale == packed.scale
    &&& sheet.atlas.dim1 == packed.dim1
    &&& sheet.atlas.gamut == variant
    &&& sheet.atlas.pixel_data@ == images_drawn(
        zeros(sheet.atlas.row_bytes() * sheet.atlas.height as nat),
        sheet.atlas.images@,
        sheet.atlas.images@.len(),
        bytes_per_pixel(sheet.atlas.pixel_format),
        sheet.atlas.row_bytes(),
    )
    &&& sheet.scale == 2
    &&& sheet.sprite_atlas_id == 0
    &&& sheet.idiom == 0
    &&& sheet.deepmap is None
}

/// Whether sheets hold the small sizes of an icon.
pub open spec fn are_icon_sheets(
    sheets: Seq<Sheet>,
    icon_name: Seq<char>,
    identifier: u16,
    variants: bool,
    variant: u16,
    pixels: Seq<Vec<u8>>,
) -> bool {
    exists|images: Seq<PackedImage>, atlases: Seq<Atlas>|
        {
            &&& #[trigger] are_icon_images(
                images,
                icon_name,
                identifier,
                variants,
                variant,
                pixels,
            )
            &&& is_stable_order(size_keys(images), packing_order(images))
            &&& #[trigger] atlases_pack(
                atlases,
                arranged(images, packing_order(images)),
                PACK_MAX_WIDTH,
                PACK_MAX_HEIGHT,
            )
            &&& sheets.len() == atlases.len()
            &&& forall|i: int|
                0 <= i < sheets.len() ==> is_icon_sheet(#[trigger] sheets[i], atlases[i], variant)
        }
}

/// The unplaced image of a rendered icon.
fn make_icon_image(
    icon_name: &str,
    identifier: u16,
    i: usize,
    variants: bool,
    variant: u16,
    pixels: &Vec<u8>,
) -> (image: PackedImage)
    requires
        i < ATLAS_SIZES,
    ensures
        is_icon_image(
            image,
            icon_name@,
            identifier,
            i as int,
            variants,
            variant,
            pixels@,
        ),
{
    let (points, scale) = macos_icon_size(i);
    let name = pre_rendered_name(icon_name, points, scale, "NSAppearanceNameSystem");
    proof {
        lemma_icon_sides(i as int);
    }
    let side: u32 = points * scale;
    let mut image = PackedImage::new(name, identifier as u32, side, side);
    image.pixel_data = copy_of(pixels.as_slice());
    image.pixel_format = find_icon_format(variants, variant);
    image.scale = scale;
    image.part = PART_ICON as u32;
    let number: u16 = icon_dim2(points);
    image.dim2 = number as u32;
    image.variant = variant as u32;
    image
}

/// Puts the small sizes of an icon on sheets.
pub fn pack_icons(
    icon_name: &str,
    identifier: u16,
    variants: bool,
    variant: u16,
    pixels: &Vec<Vec<u8>>,
) -> (sheets: Vec<Sheet>)
    requires
        pixels@.len() == ICON_SIZES,
    ensures
        are_icon_sheets(sheets@, icon_name@, identifier, variants, variant, pixels@),
        forall|i: int| 0 <= i < sheets@.len() ==> sheet_ok(#[trigger] sheets@[i]),
{
    let mut images: Vec<PackedImage> = Vec::new();
    let mut i: usize = 0;
    while i < ATLAS_SIZES
        invariant
            i <= ATLAS_SIZES,
            pixels@.len() == ICON_SIZES,
            images@.len() == i,
            forall|j: int|
                0 <= j < i ==> is_icon_image(
                    #[trigger] images@[j],
                    icon_name@,
                    identifier,
                    j,
                    variants,
                    variant,
                    pixels@[j]@,
                ),
        decreases ATLAS_SIZES - i,
    {
        images.push(
            make_icon_image(icon_name, identifier, i, variants, variant, &pixels[i]),
        );
        i = i + 1;
    }
    let ghost unplaced = images@;
    let ghost order = packing_order(unplaced);
    let ghost sorted = arranged(unplaced, order);
    proof {
        assert forall|j: int| 0 <= j < unplaced.len() implies (#[trigger] unplaced[j]).width
            <= PACK_MAX_WIDTH - 4 && unplaced[j].height <= PACK_MAX_HEIGHT - 4 by {
            lemma_icon_sides(j);
            assert(is_icon_image(
                unplaced[j],
                icon_name@,
                identifier,
                j,
                variants,
                variant,
                pixels@[j]@,
            ));
        }
    }
    let packed = pack_images_split(images, PACK_MAX_WIDTH, PACK_MAX_HEIGHT);
    let ghost all = packed@;
    proof {
        assert forall|j: int| 0 <= j < sorted.len() implies (#[trigger] sorted[j]).width
            <= PACK_MAX_WIDTH - 4 && sorted[j].height <= PACK_MAX_HEIGHT - 4 by {
            assert(sorted[j] == unplaced[order[j] as int]);
        }
    }
    let mut sheets: Vec<Sheet> = Vec::new();
    for atlas in it: packed
        invariant
            it.seq() == all,
            atlases_pack(all, sorted, PACK_MAX_WIDTH, PACK_MAX_HEIGHT),
            forall|j: int|
                0 <= j < sorted.len() ==> (#[trigger] sorted[j]).width <= PACK_MAX_WIDTH - 4
                    && sorted[j].height <= PACK_MAX_HEIGHT - 4,
            sheets@.len() == it.index(),
            forall|j: int| 0 <= j < sheets@.len() ==> sheet_ok(#[trigger] sheets@[j]),
            forall|j: int|
                0 <= j < sheets@.len() ==> is_icon_sheet(#[trigger] sheets@[j], all[j], variant),
    {
        let ghost k = it.index() as int;
        proof {
            lemma_atlases_small(all, sorted, k);
        }
        let mut atlas = atlas;
        atlas.gamut = variant as u32;
        proof {
            lemma_drawable(atlas);
        }
        atlas.render();
        proof {
            crate::packer::lemma_images_drawn_len(
                zeros(atlas.row_bytes() * atlas.height as nat),
                atlas.images@,
                atlas.images@.len(),
                bytes_per_pixel(atlas.pixel_format),
                atlas.row_bytes(),
            );
        }
        let sheet = Sheet { atlas, scale: 2, sprite_atlas_id: 0, idiom: 0, deepmap: None };
        assert(sheet_ok(sheet));
        assert(is_icon_sheet(sheet, all[k], variant));
        sheets.push(sheet);
    }
    assert(are_icon_images(
        unplaced,
        icon_name@,
        identifier,
        variants,
        variant,
        pixels@,
    ));
    sheets
}

/// A sheet of an icon.
#[verifier::opaque]
pub open spec fn sheet_rendition(t: Target, sheet: Sheet, variant: u16) -> RenditionModel {
    RenditionModel {
        name: sheet.atlas.name_after("ZZZZPackedAsset-"@),
        element: ELEMENT_PACKED,
        part: PART_REGULAR,
        scale: 2,
        width: sheet.atlas.width,
        height: sheet.atlas.height,
        pixel_format: sheet.atlas.pixel_format@,
        layout: LAYOUT_NAME_LIST,
        variant,
        colorspace_id: colorspace_of_format(sheet.atlas.pixel_format@),
        csi_override: Some(sheet_csi(sheet, t.min_deploy, t.platform)),
        min_deploy: t.min_deploy,
        platform: t.platform,
        ..plain_rendition()
    }
}

/// An icon on a sheet: a link to its place, counted from the lower edge.
#[verifier::opaque]
pub open spec fn placed_rendition(
    t: Target,
    sheet: Sheet,
    image: PackedImage,
    identifier: u16,
    variant: u16,
) -> RenditionModel {
    let format = sheet.atlas.pixel_format@;
    let stored = csi(
        image.width,
        image.height,
        percent(image.scale as u16),
        format,
        LAYOUT_PACKED_IMAGE,
        image.name@,
        packed_image_tlv(
            image.width,
            image.height,
            image.scale as u16,
            image.x,
            (sheet.atlas.height - image.y - image.height) as u32,
            0,
            0,
            0,
        ),
        Seq::empty(),
        0,
        colorspace_of_format(format),
        1,
    );
    RenditionModel {
        name: image.name@,
        identifier,
        part: PART_ICON,
        scale: image.scale as u16,
        dim2: image.dim2 as u16,
        width: image.width,
        height: image.height,
        pixel_format: format,
        layout: LAYOUT_PACKED_IMAGE,
        variant,
        colorspace_id: colorspace_of_format(format),
        csi_override: Some(stored),
        min_deploy: t.min_deploy,
        platform: t.platform,
        ..plain_rendition()
    }
}

/// A list with the first `n` icons on a sheet.
pub open spec fn with_placed(
    t: Target,
    l: ListModel,
    sheet: Sheet,
    identifier: u16,
    variant: u16,
    n: nat,
) -> ListModel
    decreases n,
{
    if n == 0 {
        l
    } else {
        plus_rendition(
            with_placed(t, l, sheet, identifier, variant, (n - 1) as nat),
            placed_rendition(t, sheet, sheet.atlas.images@[n - 1], identifier, variant),
        )
    }
}

/// A list with the first `n` sheets of an icon.
pub open spec fn with_sheets(
    t: Target,
    l: ListModel,
    sheets: Seq<Sheet>,
    identifier: u16,
    variant: u16,
    n: nat,
) -> ListModel
    decreases n,
{
    if n == 0 {
        l
    } else {
        let sheet = sheets[n - 1];
        with_placed(
            t,
            plus_rendition(
                with_sheets(t, l, sheets, identifier, variant, (n - 1) as nat),
                sheet_rendition(t, sheet, variant),
            ),
            sheet,
            identifier,
            variant,
            sheet.atlas.images@.len(),
        )
    }
}

/// A sheet of an icon.
fn make_sheet_rendition(sheet: &Sheet, variant: u16, min_deploy: &str, platform: &str) -> (r:
    Rendition)
    requires
        sheet_ok(*sheet),
    ensures
        r@ == sheet_rendition(
            Target { min_deploy: min_deploy@, platform: platform@ },
            *sheet,
            variant,
        ),
{
    proof {
        reveal(sheet_rendition);
    }
    let stored = make_sheet_csi(sheet, min_deploy, platform);
    let mut r = Rendition::default();
    r.name = sheet.atlas.name();
    r.element = ELEMENT_PACKED;
    r.part = PART_REGULAR;
    r.scale = 2;
    r.width = sheet.atlas.width;
    r.height = sheet.atlas.height;
    r.pixel_format = sheet.atlas.pixel_format;
    r.layout = LAYOUT_NAME_LIST;
    r.variant = variant;
    r.colorspace_id = colorspace_for_pixel_format(&sheet.atlas.pixel_format);
    r.csi_override = Some(stored);
    r.min_deploy = min_deploy.to_owned();
    r.platform = platform.to_owned();
    r
}

/// An icon on a sheet.
fn make_placed_rendition(
    sheet: &Sheet,
    image: &PackedImage,
    identifier: u16,
    variant: u16,
    min_deploy: &str,
    platform: &str,
) -> (r: Rendition)
    requires
        image.y + image.height <= sheet.atlas.height,
    ensures
        r@ == placed_rendition(
            Target { min_deploy: min_deploy@, platform: platform@ },
            *sheet,
            *image,
            identifier,
            variant,
        ),
{
    proof {
        reveal(placed_rendition);
    }
    let stored = build_packed_image_csi(
        image.name.as_str(),
        image.width,
        image.height,
        image.scale as u16,
        &sheet.atlas.pixel_format,
        image.x,
        sheet.atlas.height - image.y - image.height,
        0,
        0,
        0,
        0,
    );
    let mut r = Rendition::default();
    r.name = image.name.as_str().to_owned();
    r.identifier = identifier;
    r.part = PART_ICON;
    r.scale = image.scale as u16;
    r.dim2 = image.dim2 as u16;
    r.width = image.width;
    r.height = image.height;
    r.pixel_format = sheet.atlas.pixel_format;
    r.layout = LAYOUT_PACKED_IMAGE;
    r.variant = variant;
    r.colorspace_id = colorspace_for_pixel_format(&sheet.atlas.pixel_format);
    r.csi_override = Some(stored);
    r.min_deploy = min_deploy.to_owned();
    r.platform = platform.to_owned();
    r
}

fn add_sheets(
    l: &mut IconList,
    sheets: &Vec<Sheet>,
    identifier: u16,
    variant: u16,
    min_deploy: &str,
    platform: &str,
)
    requires
        forall|i: int| 0 <= i < sheets@.len() ==> sheet_ok(#[trigger] sheets@[i]),
    ensures
        final(l)@ == with_sheets(
            Target { min_deploy: min_deploy@, platform: platform@ },
            old(l)@,
            sheets@,
            identifier,
            variant,
            sheets@.len(),
        ),
{
    let ghost t = Target { min_deploy: min_deploy@, platform: platform@ };
    let mut i: usize = 0;
    while i < sheets.len()
        invariant
            i <= sheets@.len(),
            t == (Target { min_deploy: min_deploy@, platform: platform@ }),
            forall|i: int| 0 <= i < sheets@.len() ==> sheet_ok(#[trigger] sheets@[i]),
            l@ == with_sheets(t, old(l)@, sheets@, identifier, variant, i as nat),
        decreases sheets.len() - i,
    {
        let sheet = &sheets[i];
        l.push(make_sheet_rendition(sheet, variant, min_deploy, platform));
        let ghost start = l@;
        let mut k: usize = 0;
        while k < sheet.atlas.images.len()
            invariant
                k <= sheet.atlas.images@.len(),
                t == (Target { min_deploy: min_deploy@, platform: platform@ }),
                sheet_ok(*sheet),
                l@ == with_placed(t, start, *sheet, identifier, variant, k as nat),
            decreases sheet.atlas.images.len() - k,
        {
            l.push(
                make_placed_rendition(
                    sheet,
                    &sheet.atlas.images[k],
                    identifier,
                    variant,
                    min_deploy,
                    platform,
                ),
            );
            k = k + 1;
        }
        i = i + 1;
    }
}

/// A list with those of the first `n` sizes that are stored on their own.
pub open spec fn with_sized(
    t: Target,
    l: ListModel,
    icon_name: Seq<char>,
    identifier: u16,
    variants: bool,
    light: Seq<Vec<u8>>,
    dark: Seq<Vec<u8>>,
    n: nat,
) -> ListModel
    decreases n,
{
    if n == 0 {
        l
    } else {
        let before = with_sized(
            t,
            l,
            icon_name,
            identifier,
            variants,
            light,
            dark,
            (n - 1) as nat,
        );
        let i = n - 1;
        if i < ATLAS_SIZES {
            before
        } else {
            let first = plus_rendition(
                before,
                sized_icon(t, icon_name, identifier, i, variants, 0, light[i]@),
            );
            if variants {
                plus_rendition(
                    first,
                    sized_icon(t, icon_name, identifier, i, variants, 1, dark[i]@),
                )
            } else {
                first
            }
        }
    }
}

fn add_sized(
    l: &mut IconList,
    icon_name: &str,
    identifier: u16,
    variants: bool,
    light: &Vec<Vec<u8>>,
    dark: &Vec<Vec<u8>>,
    min_deploy: &str,
    platform: &str,
)
    requires
        light@.len() == ICON_SIZES,
        variants ==> dark@.len() == ICON_SIZES,
    ensures
        final(l)@ == with_sized(
            Target { min_deploy: min_deploy@, platform: platform@ },
            old(l)@,
            icon_name@,
            identifier,
            variants,
            light@,
            dark@,
            ICON_SIZES as nat,
        ),
{
    let ghost t = Target { min_deploy: min_deploy@, platform: platform@ };
    let mut i: usize = 0;
    while i < ICON_SIZES
        invariant
            i <= ICON_SIZES,
            light@.len() == ICON_SIZES,
            variants ==> dark@.len() == ICON_SIZES,
            t == (Target { min_deploy: min_deploy@, platform: platform@ }),
            l@ == with_sized(
                t,
                old(l)@,
                icon_name@,
                identifier,
                variants,
                light@,
                dark@,
                i as nat,
            ),
        decreases ICON_SIZES - i,
    {
        if i >= ATLAS_SIZES {
            l.push(
                make_sized_icon(
                    icon_name,
                    identifier,
                    i,
                    variants,
                    0,
                    copy_of(light[i].as_slice()),
                    min_deploy,
                    platform,
                ),
            );
            if variants {
                l.push(
                    make_sized_icon(
                        icon_name,
                        identifier,
                        i,
                        variants,
                        1,
                        copy_of(dark[i].as_slice()),
                        min_deploy,
                        platform,
                    ),
                );
            }
        }
        i = i + 1;
    }
}

/// Whether an icon is stored as stacks of layers too: it has groups, layers with
/// images, and gradients.
pub open spec fn is_layered(plan: IconPlan) -> bool {
    plan.group_facet_names@.len() > 0 && plan.layer_assets@.len() > 0
        && plan.palette.gradients@.len() > 0
}

/// The rendered sizes of an icon: those on sheets and those on their own, and the
/// list of them.
#[verifier::opaque]
pub open spec fn rendered_list(
    t: Target,
    name: Seq<char>,
    identifier: u16,
    variants: bool,
    light: Seq<Vec<u8>>,
    dark: Seq<Vec<u8>>,
    sheets: Seq<Sheet>,
    dark_sheets: Seq<Sheet>,
) -> ListModel {
    let none = ListModel { renditions: Seq::empty(), facets: Seq::empty() };
    let own = with_sized(
        t,
        none,
        name,
        identifier,
        variants,
        light,
        dark,
        ICON_SIZES as nat,
    );
    let primary = with_sheets(t, own, sheets, identifier, 0, sheets.len());
    let all = if variants {
        with_sheets(t, primary, dark_sheets, identifier, 1, dark_sheets.len())
    } else {
        primary
    };
    plus_name(
        plus_rendition(all, sizes_rendition(name, identifier, icon_entries())),
        name,
        PART_ICON,
        identifier,
    )
}

/// Everything that is stored of an icon, or what is wrong with one of its layers.
#[verifier::opaque]
pub open spec fn icon_list<H: Fn(&str) -> u16>(
    t: Target,
    hash: H,
    plan: IconPlan,
    bundle: Item,
    groups: Seq<Group>,
    rendered: ListModel,
) -> Result<ListModel, IconFault> {
    let named = with_group_names(
        hash,
        rendered,
        texts(plan.group_facet_names@),
        plan.group_facet_names@.len(),
    );
    match with_assets(
        t,
        hash,
        bundle,
        named,
        asset_views(plan.layer_assets@),
        plan.layer_assets@.len(),
    ) {
        Err(e) => Err(e),
        Ok(l) => {
            let colored = with_palette(t, hash, l, plan.palette@);
            Ok(
                if is_layered(plan) {
                    with_stacks(
                        t,
                        hash,
                        colored,
                        plan.facet_prefix@,
                        texts(plan.group_facet_names@),
                        groups,
                        plan.palette@.gradients,
                    )
                } else {
                    colored
                },
            )
        },
    }
}

/// Adds the rendered sizes of an icon to an empty list.
fn make_rendered_list(
    name: &str,
    identifier: u16,
    variants: bool,
    light: &Vec<Vec<u8>>,
    dark: &Vec<Vec<u8>>,
    min_deploy: &str,
    platform: &str,
    sheets: &Vec<Sheet>,
    dark_sheets: &Vec<Sheet>,
) -> (list: IconList)
    requires
        light@.len() == ICON_SIZES,
        variants ==> dark@.len() == ICON_SIZES,
        forall|i: int| 0 <= i < sheets@.len() ==> sheet_ok(#[trigger] sheets@[i]),
        forall|i: int| 0 <= i < dark_sheets@.len() ==> sheet_ok(#[trigger] dark_sheets@[i]),
    ensures
        list@ == rendered_list(
            Target { min_deploy: min_deploy@, platform: platform@ },
            name@,
            identifier,
            variants,
            light@,
            dark@,
            sheets@,
            dark_sheets@,
        ),
{
    reveal(rendered_list);
    let mut l = IconList::new();
    add_sized(&mut l, name, identifier, variants, light, dark, min_deploy, platform);
    add_sheets(&mut l, sheets, identifier, 0, min_deploy, platform);
    if variants {
        add_sheets(&mut l, dark_sheets, identifier, 1, min_deploy, platform);
    }
    l.push(make_size_list(name, identifier));
    l.name(name, PART_ICON, identifier);
    l
}

/// Adds the layers, colors and stacks of an icon to the list of its rendered sizes.
fn complete_icon_list<H: Fn(&str) -> u16>(
    rendered: IconList,
    plan: &IconPlan,
    bundle: &Item,
    groups: &Vec<Group>,
    min_deploy: &str,
    platform: &str,
    hash: &H,
) -> (list: Result<IconList, IconError>)
    requires
        is_text_function(*hash),
    ensures
        ({
            let t = Target { min_deploy: min_deploy@, platform: platform@ };
            let want = icon_list(t, *hash, *plan, *bundle, groups@, rendered@);
            match list {
                Ok(l) => want == Ok::<ListModel, IconFault>(l@),
                Err(e) => want == Err::<ListModel, IconFault>(e@),
            }
        }),
{
    reveal(icon_list);
    let mut l = rendered;
    add_group_names(&mut l, &plan.group_facet_names, hash);
    match add_assets(&mut l, &plan.layer_assets, bundle, min_deploy, platform, hash) {
        Ok(()) => {},
        Err(e) => {
            return Err(e);
        },
    }
    add_palette(&mut l, &plan.palette, min_deploy, platform, hash);
    if plan.group_facet_names.len() > 0 && plan.layer_assets.len() > 0
        && plan.palette.gradients.len() > 0 {
        add_stacks(
            &mut l,
            plan.facet_prefix.as_str(),
            &plan.group_facet_names,
            groups,
            &plan.palette.gradients,
            min_deploy,
            platform,
            hash,
        );
    }
    Ok(l)
}

/// The columns of the keys of an icon.
pub open spec fn icon_columns(rs: Seq<Rendition>) -> Seq<u16> {
    mac_columns(some_direction(rs), some_dim1(rs), some_dim2(rs), some_variant(rs))
}

/// Whether renditions are given ones with the columns of their keys.
pub open spec fn have_columns(
    after: Seq<Rendition>,
    before: Seq<Rendition>,
    columns: Seq<u16>,
) -> bool {
    &&& after.len() == before.len()
    &&& forall|i: int|
        0 <= i < before.len() ==> (#[trigger] after[i]).keyformat@ == columns && after[i] == (
        Rendition { keyformat: after[i].keyformat, ..before[i] })
}

fn set_columns(renditions: &mut Vec<Rendition>, columns: &Vec<u16>)
    ensures
        have_columns(final(renditions)@, old(renditions)@, columns@),
{
    let ghost before = renditions@;
    let mut i: usize = 0;
    while i < renditions.len()
        invariant
            i <= renditions@.len(),
            renditions@.len() == before.len(),
            forall|j: int|
                0 <= j < i ==> (#[trigger] renditions@[j]).keyformat@ == columns@ && renditions@[j]
                    == (Rendition { keyformat: renditions@[j].keyformat, ..before[j] }),
            forall|j: int| i <= j < before.len() ==> #[trigger] renditions@[j] == before[j],
        decreases renditions.len() - i,
    {
        let mut r = Rendition::default();
        core::mem::swap(&mut r, &mut renditions[i]);
        r.keyformat = vstd::slice::slice_to_vec(columns.as_slice());
        core::mem::swap(&mut r, &mut renditions[i]);
        i = i + 1;
    }
}

/// The keys of renditions, and the renditions as they are stored.
pub open spec fn stored_entries(rs: Seq<Rendition>) -> Seq<(Seq<u8>, Seq<u8>)> {
    Seq::new(rs.len(), |i: int| stored_entry(rs[i]))
}

/// Whether all renditions can be stored.
pub open spec fn all_storable(rs: Seq<Rendition>) -> bool {
    forall|i: int| 0 <= i < rs.len() ==> can_be_stored(#[trigger] rs[i])
}

/// The keys of renditions, and the renditions as they are stored; `None` if one of
/// them cannot be stored.
fn make_stored_entries(renditions: &Vec<Rendition>) -> (entries: Option<Vec<(Vec<u8>, Vec<u8>)>>)
    ensures
        match entries {
            Some(list) => all_storable(renditions@) && pair_contents(list@) == stored_entries(
                renditions@,
            ),
            None => !all_storable(renditions@),
        },
{
    let mut entries: Vec<(Vec<u8>, Vec<u8>)> = Vec::new();
    let mut i: usize = 0;
    assert(pair_contents(entries@) =~= stored_entries(renditions@).take(0));
    while i < renditions.len()
        invariant
            i <= renditions@.len(),
            forall|j: int| 0 <= j < i ==> can_be_stored(#[trigger] renditions@[j]),
            pair_contents(entries@) == stored_entries(renditions@).take(i as int),
        decreases renditions.len() - i,
    {
        let r = &renditions[i];
        if r.csi_override.is_none() && r.pixel_data.len() > 0 && !r.is_storable() {
            assert(!can_be_stored(renditions@[i as int]));
            return None;
        }
        let ghost before = entries@;
        let key = r.build_rendition_key();
        let stored = r.build_csi();
        entries.push((key, stored));
        proof {
            reveal(stored_entry);
            assert(stored_entry(*r) == (key@, stored@));
        }
        i = i + 1;
        assert(pair_contents(entries@) =~= pair_contents(before).push((key@, stored@)));
        assert(pair_contents(entries@) =~= stored_entries(renditions@).take(i as int));
    }
    assert(stored_entries(renditions@).take(i as int) =~= stored_entries(renditions@));
    Some(entries)
}

/// Whether one of some keys has an identifier.
pub open spec fn has_identifier(keys: Seq<Seq<u8>>, id_at: int, id: nat) -> bool {
    exists|k: int|
        0 <= k < keys.len() && has_column(#[trigger] keys[k], id_at) && key_column(keys[k], id_at)
            == id
}

/// The table of bitmap keys for the identifiers below `n`: one entry for each
/// identifier but zero that a key has.
pub open spec fn icon_bitmaps(keys: Seq<Seq<u8>>, format: Seq<u16>, n: nat) -> Seq<(u32, Seq<u8>)>
    decreases n,
{
    if n <= 1 {
        Seq::empty()
    } else {
        let id = (n - 1) as nat;
        let before = icon_bitmaps(keys, format, id);
        if has_identifier(keys, column_at(format, ATTR_IDENTIFIER, 0), id) {
            before.push((id as u32, bitmap_value(keys, format, id as u16)))
        } else {
            before
        }
    }
}

/// How many identifiers there can be.
pub const IDENTIFIERS: usize = 65536;

/// Marks the identifiers that keys have.
fn find_identifiers(entries: &[(Vec<u8>, Vec<u8>)], id_at: usize) -> (seen: Vec<bool>)
    requires
        2 * id_at + 1 <= usize::MAX,
    ensures
        seen@.len() == IDENTIFIERS,
        forall|id: int|
            0 <= id < IDENTIFIERS ==> #[trigger] seen@[id] == has_identifier(
                first_keys(pair_contents(entries@)),
                id_at as int,
                id as nat,
            ),
{
    let ghost keys = first_keys(pair_contents(entries@));
    let mut seen: Vec<bool> = Vec::new();
    let mut i: usize = 0;
    while i < IDENTIFIERS
        invariant
            i <= IDENTIFIERS,
            seen@.len() == i,
            forall|id: int| 0 <= id < i ==> !#[trigger] seen@[id],
        decreases IDENTIFIERS - i,
    {
        seen.push(false);
        i = i + 1;
    }
    let mut k: usize = 0;
    while k < entries.len()
        invariant
            k <= entries@.len(),
            keys == first_keys(pair_contents(entries@)),
            2 * id_at + 1 <= usize::MAX,
            seen@.len() == IDENTIFIERS,
            forall|id: int|
                0 <= id < IDENTIFIERS ==> #[trigger] seen@[id] == has_identifier(
                    keys.take(k as int),
                    id_at as int,
                    id as nat,
                ),
        decreases entries.len() - k,
    {
        let key = &entries[k].0;
        let ghost before = seen@;
        assert(keys[k as int] == key@);
        let mut found: Option<usize> = None;
        if 2 * id_at + 1 < key.len() {
            found = Some(key[2 * id_at] as usize + 256 * key[2 * id_at + 1] as usize);
        }
        match found {
            Some(id) => {
                seen.set(id, true);
            },
            None => {},
        }
        proof {
            assert(found is Some == has_column(keys[k as int], id_at as int));
            assert(found matches Some(id) ==> id == key_column(keys[k as int], id_at as int));
            assert forall|id: int| 0 <= id < IDENTIFIERS implies #[trigger] seen@[id]
                == has_identifier(keys.take(k + 1), id_at as int, id as nat) by {
                lemma_one_more_key(keys, k as int, id_at as int, id as nat);
                assert(before[id] == has_identifier(keys.take(k as int), id_at as int, id as nat));
            }
        }
        k = k + 1;
    }
    assert(keys.take(k as int) =~= keys);
    seen
}

proof fn lemma_one_more_key(keys: Seq<Seq<u8>>, k: int, id_at: int, id: nat)
    requires
        0 <= k < keys.len(),
    ensures
        has_identifier(keys.take(k + 1), id_at, id) == (has_identifier(keys.take(k), id_at, id)
            || has_column(keys[k], id_at) && key_column(keys[k], id_at) == id),
{
    let less = keys.take(k);
    let more = keys.take(k + 1);
    if has_identifier(less, id_at, id) {
        let j = choose|j: int|
            0 <= j < less.len() && has_column(#[trigger] less[j], id_at) && key_column(
                less[j],
                id_at,
            ) == id;
        assert(more[j] == less[j]);
    }
    if has_column(keys[k], id_at) && key_column(keys[k], id_at) == id {
        assert(more[k] == keys[k]);
    }
    if has_identifier(more, id_at, id) {
        let j = choose|j: int|
            0 <= j < more.len() && has_column(#[trigger] more[j], id_at) && key_column(
                more[j],
                id_at,
            ) == id;
        if j < k {
            assert(less[j] == more[j]);
        }
    }
}

/// The table of bitmap keys of an icon.
pub fn build_bitmapkeys(entries: &[(Vec<u8>, Vec<u8>)], keyformat: &[u16]) -> (bitmaps: Vec<
    (u32, Vec<u8>),
>)
    requires
        4 + 4 * keyformat@.len() <= u32::MAX,
    ensures
        raw_contents(bitmaps@) == icon_bitmaps(
            first_keys(pair_contents(entries@)),
            keyformat@,
            IDENTIFIERS as nat,
        ),
{
    let ghost keys = first_keys(pair_contents(entries@));
    let id_at = find_column(keyformat, ATTR_IDENTIFIER);
    let seen = find_identifiers(entries, id_at);
    let mut bitmaps: Vec<(u32, Vec<u8>)> = Vec::new();
    let mut id: usize = 1;
    assert(raw_contents(bitmaps@) =~= Seq::empty());
    while id < IDENTIFIERS
        invariant
            1 <= id <= IDENTIFIERS,
            keys == first_keys(pair_contents(entries@)),
            id_at == column_at(keyformat@, ATTR_IDENTIFIER, 0),
            4 + 4 * keyformat@.len() <= u32::MAX,
            seen@.len() == IDENTIFIERS,
            forall|i: int|
                0 <= i < IDENTIFIERS ==> #[trigger] seen@[i] == has_identifier(
                    keys,
                    id_at as int,
                    i as nat,
                ),
            raw_contents(bitmaps@) == icon_bitmaps(keys, keyformat@, id as nat),
        decreases IDENTIFIERS - id,
    {
        if seen[id] {
            let ghost before = bitmaps@;
            let value = make_bitmap_value(entries, keyformat, id as u16);
            bitmaps.push((id as u32, value));
            assert(raw_contents(bitmaps@) =~= raw_contents(before).push((id as u32, value@)));
        }
        id = id + 1;
    }
    bitmaps
}

/// The names of an icon as they are stored.
pub open spec fn name_entries(facets: Seq<(Seq<char>, Facet)>) -> Seq<(Seq<u8>, Seq<u8>)> {
    sorted_pairs(
        Seq::new(
            facets.len(),
            |i: int|
                (
                    encode_utf8(facets[i].0),
                    facet_value(facets[i].1.element, facets[i].1.part, facets[i].1.identifier),
                ),
        ),
    )
}

fn make_name_entries(facets: &Vec<(String, Facet)>) -> (entries: Vec<(Vec<u8>, Vec<u8>)>)
    ensures
        pair_contents(entries@) == name_entries(facet_views(facets@)),
{
    let ghost views = facet_views(facets@);
    let ghost all = Seq::new(
        views.len(),
        |i: int|
            (
                encode_utf8(views[i].0),
                facet_value(views[i].1.element, views[i].1.part, views[i].1.identifier),
            ),
    );
    let mut entries: Vec<(Vec<u8>, Vec<u8>)> = Vec::new();
    let mut i: usize = 0;
    assert(pair_contents(entries@) =~= all.take(0));
    while i < facets.len()
        invariant
            i <= facets@.len() == all.len(),
            views == facet_views(facets@),
            all == Seq::new(
                views.len(),
                |i: int|
                    (
                        encode_utf8(views[i].0),
                        facet_value(views[i].1.element, views[i].1.part, views[i].1.identifier),
                    ),
            ),
            pair_contents(entries@) == all.take(i as int),
        decreases facets.len() - i,
    {
        let ghost before = entries@;
        let facet = facets[i].1;
        let key = copy_of(facets[i].0.as_str().as_bytes());
        let value = make_facetkey_value(facet.element, facet.part, facet.identifier);
        entries.push((key, value));
        i = i + 1;
        assert(pair_contents(entries@) =~= pair_contents(before).push((key@, value@)));
        assert(pair_contents(entries@) =~= all.take(i as int));
    }
    assert(all.take(i as int) =~= all);
    sort_pairs(entries)
}

/// Whether `file` is the archive of an icon; `None` if the archive does not fit in
/// memory.
pub open spec fn is_icon_file(
    file: Option<Seq<u8>>,
    entries: Seq<(Seq<u8>, Seq<u8>)>,
    facets: Seq<(Seq<char>, Facet)>,
    columns: Seq<u16>,
    t: Target,
) -> bool {
    let header = car_header(entries.len() as u32, ICON_COREUI, 1);
    let names = name_entries(facets);
    let appearances = Some(sorted_pairs(appearance_entries()));
    let metadata = extended_metadata(t.platform, t.min_deploy);
    let bitmaps = icon_bitmaps(first_keys(entries), columns, IDENTIFIERS as nat);
    let fits = archive_fits(
        header,
        2 * columns.len(),
        entries,
        names,
        appearances,
        keyformat_block(columns),
        metadata,
        bitmaps,
    );
    match file {
        None => !fits,
        Some(bytes) => fits && bytes == archive_bytes(
            archive_contents(
                header,
                2 * columns.len(),
                entries,
                names,
                appearances,
                keyformat_block(columns),
                metadata,
                bitmaps,
            ),
        ),
    }
}

/// A file behind an option.
pub open spec fn file_view(file: Option<Vec<u8>>) -> Option<Seq<u8>> {
    match file {
        Some(bytes) => Some(bytes@),
        None => None,
    }
}

/// Puts the tables of an icon into an archive.
pub fn write_icon_car(
    facets: &Vec<(String, Facet)>,
    keyformat: &Vec<u16>,
    entries: &Vec<(Vec<u8>, Vec<u8>)>,
    platform: &str,
    min_deploy: &str,
) -> (file: Option<Vec<u8>>)
    requires
        4 + 4 * keyformat@.len() <= u32::MAX,
        texts_fit(min_deploy@, platform@),
    ensures
        is_icon_file(
            file_view(file),
            pair_contents(entries@),
            facet_views(facets@),
            keyformat@,
            Target { min_deploy: min_deploy@, platform: platform@ },
        ),
{
    let header = make_carheader_versioned(entries.len() as u32, ICON_COREUI);
    let names = make_name_entries(facets);
    let appearances = sort_pairs(make_appearancekeys_entries());
    let bitmaps = build_bitmapkeys(entries.as_slice(), keyformat.as_slice());
    let columns: usize = keyformat.len();
    let table: Option<&[(Vec<u8>, Vec<u8>)]> = Some(appearances.as_slice());
    let format_block = make_keyformat(keyformat.as_slice());
    let metadata = make_extended_metadata(platform, min_deploy);
    build_archive(
        header,
        2 * columns,
        entries.as_slice(),
        names.as_slice(),
        table,
        format_block,
        metadata,
        bitmaps.as_slice(),
    )
}

/// Whether `out` is what comes of storing a list of renditions and names.
pub open spec fn list_compiles_to(
    list: ListModel,
    before: Seq<Rendition>,
    rs: Seq<Rendition>,
    t: Target,
    out: Result<Vec<u8>, IconError>,
) -> bool {
    let columns = icon_columns(before);
    let ready = all_storable(rs) && texts_fit(t.min_deploy, t.platform);
    &&& models(before) == list.renditions
    &&& have_columns(rs, before, columns)
    &&& match out {
        Ok(file) => ready && is_icon_file(
            Some(file@),
            sorted_pairs(stored_entries(rs)),
            list.facets,
            columns,
            t,
        ),
        Err(e) => e@ == IconFault::TooLarge && (!ready || is_icon_file(
            None,
            sorted_pairs(stored_entries(rs)),
            list.facets,
            columns,
            t,
        )),
    }
}

/// Whether `out` is what comes of storing some renditions that a list describes.
#[verifier::opaque]
pub open spec fn stored_as(list: ListModel, t: Target, out: Result<Vec<u8>, IconError>) -> bool {
    exists|before: Seq<Rendition>, rs: Seq<Rendition>| #[trigger]
        list_compiles_to(list, before, rs, t, out)
}

/// Stores a list of renditions and names, with what the deepmap encoder of the platform
/// has made of their pixels where it was asked.
pub fn store_icon_list(list: IconList, min_deploy: &str, platform: &str) -> (out: Result<
    Vec<u8>,
    IconError,
>)
    ensures
        stored_as(list@, Target { min_deploy: min_deploy@, platform: platform@ }, out),
{
    reveal(stored_as);
    let ghost model = list@;
    let ghost before = list.renditions@;
    let ghost t = Target { min_deploy: min_deploy@, platform: platform@ };
    let IconList { mut renditions, facets } = list;
    proof {
        lemma_answers(renditions@);
    }
    let columns = compute_keyformat(renditions.as_slice(), false);
    set_columns(&mut renditions, &columns);
    let ghost rs = renditions@;
    let fitting = min_deploy.as_bytes().len() <= 768 && deployment_platform_name(
        platform,
    ).as_bytes().len() <= 512;
    let entries = match make_stored_entries(&renditions) {
        None => {
            let out = Err(IconError::TooLarge);
            assert(list_compiles_to(model, before, rs, t, out));
            return out;
        },
        Some(entries) => entries,
    };
    if !fitting {
        let out = Err(IconError::TooLarge);
        assert(list_compiles_to(model, before, rs, t, out));
        return out;
    }
    let sorted = sort_pairs(entries);
    let file = write_icon_car(&facets, &columns, &sorted, platform, min_deploy);
    let out = match file {
        Some(bytes) => Ok(bytes),
        None => Err(IconError::TooLarge),
    };
    assert(list_compiles_to(model, before, rs, t, out));
    out
}

/// Whether `out` is the list of the renditions of an icon whose small sizes are on given
/// sheets.
pub open spec fn sheets_list_to<H: Fn(&str) -> u16>(
    t: Target,
    hash: H,
    plan: IconPlan,
    bundle: Item,
    groups: Seq<Group>,
    light: Seq<Vec<u8>>,
    dark: Seq<Vec<u8>>,
    sheets: Seq<Sheet>,
    dark_sheets: Seq<Sheet>,
    out: Result<ListModel, IconFault>,
) -> bool {
    let name = plan.facet_prefix@;
    let identifier = value_of(hash, name);
    let variants = plan.emit_variant_axis;
    &&& are_icon_sheets(sheets, name, identifier, variants, 0, light)
    &&& variants ==> are_icon_sheets(dark_sheets, name, identifier, variants, 1, dark)
    &&& out == icon_list(
        t,
        hash,
        plan,
        bundle,
        groups,
        rendered_list(t, name, identifier, variants, light, dark, sheets, dark_sheets),
    )
}

/// Whether `out` is the list of the renditions of an icon, or what is wrong with it.
pub open spec fn icon_lists_to<H: Fn(&str) -> u16>(
    t: Target,
    hash: H,
    plan: IconPlan,
    bundle: Item,
    groups: Seq<Group>,
    light: Seq<Vec<u8>>,
    dark: Seq<Vec<u8>>,
    out: Result<ListModel, IconFault>,
) -> bool {
    exists|sheets: Seq<Sheet>, dark_sheets: Seq<Sheet>| #[trigger]
        sheets_list_to(t, hash, plan, bundle, groups, light, dark, sheets, dark_sheets, out)
}

/// A list or an error as mathematical values.
pub open spec fn list_view(out: Result<IconList, IconError>) -> Result<ListModel, IconFault> {
    match out {
        Ok(list) => Ok(list@),
        Err(e) => Err(e@),
    }
}

/// Lists the renditions of an icon.  `light` and `dark` are its pixels in each of the
/// sizes it is rendered in; the dark ones are used only if there is an alternative
/// for the dark appearance.
pub fn make_icon_list<H: Fn(&str) -> u16>(
    plan: &IconPlan,
    bundle: &Item,
    groups: &Vec<Group>,
    light: &Vec<Vec<u8>>,
    dark: &Vec<Vec<u8>>,
    platform: &str,
    min_deploy: &str,
    hash: &H,
) -> (out: Result<IconList, IconError>)
    requires
        is_text_function(*hash),
        light@.len() == ICON_SIZES,
        plan.emit_variant_axis ==> dark@.len() == ICON_SIZES,
    ensures
        icon_lists_to(
            Target { min_deploy: min_deploy@, platform: platform@ },
            *hash,
            *plan,
            *bundle,
            groups@,
            light@,
            dark@,
            list_view(out),
        ),
{
    let name = plan.facet_prefix.as_str();
    let identifier: u16 = ask(hash, name);
    let sheets = pack_icons(name, identifier, plan.emit_variant_axis, 0, light);
    let dark_sheets = if plan.emit_variant_axis {
        pack_icons(name, identifier, plan.emit_variant_axis, 1, dark)
    } else {
        Vec::new()
    };
    let rendered = make_rendered_list(
        name,
        identifier,
        plan.emit_variant_axis,
        light,
        dark,
        min_deploy,
        platform,
        &sheets,
        &dark_sheets,
    );
    let out = complete_icon_list(rendered, plan, bundle, groups, min_deploy, platform, hash);
    assert(sheets_list_to(
        Target { min_deploy: min_deploy@, platform: platform@ },
        *hash,
        *plan,
        *bundle,
        groups@,
        light@,
        dark@,
        sheets@,
        dark_sheets@,
        list_view(out),
    ));
    out
}

/// Whether `out` is what comes of compiling an icon for which no other encoder is asked.
pub open spec fn icon_compiles_to<H: Fn(&str) -> u16>(
    t: Target,
    hash: H,
    plan: IconPlan,
    bundle: Item,
    groups: Seq<Group>,
    light: Seq<Vec<u8>>,
    dark: Seq<Vec<u8>>,
    out: Result<Vec<u8>, IconError>,
) -> bool {
    exists|listed: Result<ListModel, IconFault>| #[trigger]
        icon_lists_to(t, hash, plan, bundle, groups, light, dark, listed) && match listed {
            Err(fault) => out matches Err(e) && e@ == fault,
            Ok(list) => stored_as(list, t, out),
        }
}

/// Compiles an icon into an archive without asking the deepmap encoder of the platform.
/// `light` and `dark` are its pixels in each of the sizes it is rendered in; the dark
/// ones are used only if there is an alternative for the dark appearance.
pub fn build_icon_car<H: Fn(&str) -> u16>(
    plan: &IconPlan,
    bundle: &Item,
    groups: &Vec<Group>,
    light: &Vec<Vec<u8>>,
    dark: &Vec<Vec<u8>>,
    platform: &str,
    min_deploy: &str,
    hash: &H,
) -> (out: Result<Vec<u8>, IconError>)
    requires
        is_text_function(*hash),
        light@.len() == ICON_SIZES,
        plan.emit_variant_axis ==> dark@.len() == ICON_SIZES,
    ensures
        icon_compiles_to(
            Target { min_deploy: min_deploy@, platform: platform@ },
            *hash,
            *plan,
            *bundle,
            groups@,
            light@,
            dark@,
            out,
        ),
{
    let listed = make_icon_list(plan, bundle, groups, light, dark, platform, min_deploy, hash);
    let ghost model = list_view(listed);
    let ghost t = Target { min_deploy: min_deploy@, platform: platform@ };
    let out = match listed {
        Err(e) => Err(e),
        Ok(list) => store_icon_list(list, min_deploy, platform),
    };
    assert(icon_lists_to(t, *hash, *plan, *bundle, groups@, light@, dark@, model));
    out
}

} // verus!
