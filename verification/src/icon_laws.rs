//! What the archive of an icon holds of the icon.

use vstd::prelude::*;

use crate::bytes::{be32, le32, le32_reads_back, read_le32};
use crate::car::colorspace_of_format;
use crate::csi::{
    color_data, csi, empty_data, gradient_data, layered_type_tlv, layers_tlv, opacity_tlv,
    orientation_tlv, packed_image_tlv, percent, LayerRef,
};
use crate::csi_laws::{
    body_of, color_renditions_read_back, colors_read_back, gradients_read_back, headers_read_back,
    layers_read_back, leads_to, lemma_parts_told, list_layers, packed_tags_read_back, read_le64,
    tagged, tags_of, tell_size, tells_color, tells_gradient, tells_name,
};
use crate::grouping::{PACK_MAX_HEIGHT, PACK_MAX_WIDTH};
use crate::icon_car::{
    are_icon_images, are_icon_sheets, is_icon_image, is_icon_sheet, placed_rendition, with_sized,
};
use crate::icon_json::Group;
use crate::icon_names::pre_rendered;
use crate::icon_renditions::{
    asset_rendition, group_infos, group_refs, group_rendition, icon_entries, icon_side, icon_size,
    is_svg_file, sized_icon, stack_refs, stack_rendition, with_groups, with_icon_colors,
    with_icon_gradients, with_stack, with_stacks, ListModel, Target,
};
use crate::icon_bundle::asset_facet;
use crate::naming::value_of;
use crate::order::{arranged, is_stable_order, lemma_permutation_reaches};
use crate::packer::{
    atlases_pack, images_match, is_complete, packed_atlases_show_their_images,
    packing_keeps_every_image, packing_order, shows_all, sides_fit, size_keys, Atlas, PackedImage,
};
use crate::palette::{ColorModel, GradientModel};
use crate::pixels::loaded_image;
use crate::rendition::{size_entries, sizes_data, MultisizeImageEntry, RenditionModel};
use crate::set_laws::{begins_with, documents_are_kept, holds_document};
use crate::sheet_laws::pixel_bytes;
use crate::sheets::{lemma_atlases_small, Sheet};

verus! {

/// The sizes of an icon double from 16 points on, at twice the scale, and end with 1024
/// points at scale 1.
pub proof fn icon_sizes_double(i: int)
    requires
        0 <= i <= 6,
    ensures
        icon_size(0) == (16u32, 2u32),
        i < 6 ==> icon_size(i).1 == 2,
        i < 6 ==> icon_size(i + 1).0 == 2 * icon_size(i).0,
        icon_size(6) == (1024u32, 1u32),
        icon_side(i) == icon_size(i).0 * icon_size(i).1,
{
    crate::icon_renditions::lemma_icon_sides(i);
}

/// The pixels of an icon: in color, or, where there is a dark alternative, in gray of
/// eight bits for the light one and of sixteen for the dark one.
pub open spec fn is_icon_format(
    format: Seq<u8>,
    space: u32,
    variants: bool,
    variant: u16,
) -> bool {
    if !variants {
        format == seq![0x42u8, 0x47, 0x52, 0x41] && space == 1
    } else if variant == 0 {
        format == seq![0x20u8, 0x38, 0x41, 0x47] && space == 2
    } else {
        format == seq![0x36u8, 0x31, 0x41, 0x47] && space == 6
    }
}

/// An icon that is stored on its own has its pixels, in its size and scale, under the
/// number of its size and the identifier of the icon.
pub proof fn sized_icons_are_stored(
    t: Target,
    icon_name: Seq<char>,
    identifier: u16,
    i: int,
    variants: bool,
    variant: u16,
    pixels: Seq<u8>,
)
    requires
        0 <= i <= 6,
    ensures
        ({
            let r = sized_icon(t, icon_name, identifier, i, variants, variant, pixels);
            let (points, scale) = icon_size(i);
            &&& r.name == pre_rendered(icon_name, points, scale, "NSAppearanceNameSystem"@)
            &&& r.identifier == identifier
            &&& r.element == 85
            &&& r.part == 220
            &&& r.layout == 12
            &&& r.dim2 == i + 1
            &&& r.scale == scale
            &&& r.width == points * scale
            &&& r.height == points * scale
            &&& r.pixel_data == pixels
            &&& r.variant == variant
            &&& r.csi_override is None
            &&& is_icon_format(r.pixel_format, r.colorspace_id, variants, variant)
        }),
{
    crate::icon_renditions::lemma_icon_sides(i);
    assert(seq![66u8, 71u8, 82u8, 65u8][0] == 66 && seq![32u8, 56u8, 65u8, 71u8][0] == 32);
    assert(seq![54u8, 49u8, 65u8, 71u8][0] == 54);
}

/// The four large sizes of an icon are stored on their own, the light one and, where
/// there is a dark alternative, the dark one behind it.
pub proof fn large_icons_are_listed(
    t: Target,
    l: ListModel,
    icon_name: Seq<char>,
    identifier: u16,
    variants: bool,
    light: Seq<Vec<u8>>,
    dark: Seq<Vec<u8>>,
    i: int,
)
    requires
        3 <= i < 7,
    ensures
        ({
            let out = with_sized(t, l, icon_name, identifier, variants, light, dark, 7);
            let at = l.renditions.len();
            &&& out.facets == l.facets
            &&& !variants ==> out.renditions.len() == at + 4 && out.renditions[at + i - 3]
                == sized_icon(t, icon_name, identifier, i, false, 0, light[i]@)
            &&& variants ==> out.renditions.len() == at + 8 && out.renditions[at + 2 * (i - 3)]
                == sized_icon(t, icon_name, identifier, i, true, 0, light[i]@) && out.renditions[at
                + 2 * (i - 3) + 1] == sized_icon(t, icon_name, identifier, i, true, 1, dark[i]@)
        }),
{
    reveal_with_fuel(with_sized, 8);
}

/// A small icon on a sheet is stored under its name and the number of its size, with a
/// link to its place.
pub proof fn placed_icons_read_back(
    t: Target,
    sheet: Sheet,
    image: PackedImage,
    identifier: u16,
    variant: u16,
)
    requires
        image.y + image.height <= sheet.atlas.height,
    ensures
        ({
            let r = placed_rendition(t, sheet, image, identifier, variant);
            &&& r.name == image.name@
            &&& r.identifier == identifier
            &&& r.element == 85
            &&& r.part == 220
            &&& r.layout == 1003
            &&& r.scale == image.scale as u16
            &&& r.dim2 == image.dim2 as u16
            &&& r.variant == variant
            &&& r.csi_override matches Some(stored) && links_to_place(stored, sheet, image)
                && tells_name(stored, 1003, image.name@) && tell_size(
                tags_of(stored),
                image.width as nat,
                image.height as nat,
            )
        }),
{
    reveal(placed_rendition);
    let format = sheet.atlas.pixel_format@;
    let y = (sheet.atlas.height - image.y - image.height) as u32;
    let scale = image.scale as u16;
    let tags = packed_image_tlv(image.width, image.height, scale, image.x, y, 0, 0, 0);
    packed_tags_read_back(image.width, image.height, scale, image.x, y, 0, 0, 0);
    headers_read_back(
        image.width,
        image.height,
        percent(scale),
        format,
        1003,
        image.name@,
        tags,
        Seq::empty(),
        0,
        colorspace_of_format(format),
        1,
    );
    let stored = csi(
        image.width,
        image.height,
        percent(scale),
        format,
        1003,
        image.name@,
        tags,
        Seq::empty(),
        0,
        colorspace_of_format(format),
        1,
    );
    lemma_parts_told(stored, tags, Seq::empty(), 1);
}

/// Whether a stored image links to the place of an image on a sheet, counted from the
/// lower edge.
pub open spec fn links_to_place(stored: Seq<u8>, sheet: Sheet, image: PackedImage) -> bool {
    match tagged(tags_of(stored), 1010) {
        Some(link) => leads_to(
            link,
            image.x,
            (sheet.atlas.height - image.y - image.height) as u32,
            image.width,
            image.height,
            image.scale as u16,
            0,
            0,
            0,
        ),
        None => false,
    }
}

/// Row `j` of the pixels of an icon.
pub open spec fn icon_row(pixels: Seq<u8>, width: u32, format: Seq<u8>, j: int) -> Seq<u8> {
    let len = width * pixel_bytes(format);
    pixels.subrange(j * len, j * len + len)
}

/// Row `j` of an image on a sheet.
pub open spec fn placed_row(sheet: Sheet, image: PackedImage, j: int) -> Seq<u8> {
    let size = pixel_bytes(sheet.atlas.pixel_format@) as int;
    let at = (image.y + j) * crate::sheet_laws::sheet_row(sheet) + image.x * size;
    sheet.atlas.pixel_data@.subrange(at, at + image.width * size)
}

/// Whether a sheet shows a size of an icon as its image `e`.
pub open spec fn shows_icon(
    sheet: Sheet,
    e: int,
    icon_name: Seq<char>,
    identifier: u16,
    i: int,
    pixels: Seq<u8>,
) -> bool {
    let image = sheet.atlas.images@[e];
    let (points, scale) = icon_size(i);
    &&& 0 <= e < sheet.atlas.images@.len()
    &&& image.name@ == pre_rendered(icon_name, points, scale, "NSAppearanceNameSystem"@)
    &&& image.identifier == identifier
    &&& image.width == points * scale
    &&& image.height == points * scale
    &&& image.scale == scale
    &&& image.dim2 == i + 1
    &&& image.y + image.height <= sheet.atlas.height
    &&& forall|j: int|
        0 <= j < image.height ==> #[trigger] placed_row(sheet, image, j) == icon_row(
            pixels,
            image.width,
            sheet.atlas.pixel_format@,
            j,
        )
}

/// Each of the three small sizes of an icon is found on one of its sheets, with its
/// pixels.
pub proof fn small_icons_are_found(
    sheets: Seq<Sheet>,
    icon_name: Seq<char>,
    identifier: u16,
    variants: bool,
    variant: u16,
    pixels: Seq<Vec<u8>>,
    i: int,
) -> (place: (int, int))
    requires
        are_icon_sheets(sheets, icon_name, identifier, variants, variant, pixels),
        0 <= i < 3,
        forall|k: int|
            0 <= k < 3 ==> (#[trigger] pixels[k])@.len() == icon_side(k) * (icon_side(k)
                * pixel_bytes(crate::icon_renditions::icon_format(variants, variant))),
    ensures
        0 <= place.0 < sheets.len(),
        shows_icon(sheets[place.0], place.1, icon_name, identifier, i, pixels[i]@),
{
    let (images, atlases) = choose|images: Seq<PackedImage>, atlases: Seq<Atlas>|
        {
            &&& #[trigger] are_icon_images(
                images,
                icon_name,
                identifier,
                variants,
                variant,
                pixels,
            )
            &&& is_stable_order(size_keys(images), packing_order(images))
            &&& #[trigger] atlases_pack(
                atlases,
                arranged(images, packing_order(images)),
                PACK_MAX_WIDTH,
                PACK_MAX_HEIGHT,
            )
            &&& sheets.len() == atlases.len()
            &&& forall|i: int|
                0 <= i < sheets.len() ==> is_icon_sheet(#[trigger] sheets[i], atlases[i], variant)
        };
    let order = packing_order(images);
    let all = arranged(images, order);
    lemma_icon_images_ready(
        images,
        all,
        order,
        icon_name,
        identifier,
        variants,
        variant,
        pixels,
    );
    let at = lemma_permutation_reaches(order, i);
    let (a, e) = packing_keeps_every_image(atlases, all, PACK_MAX_WIDTH, PACK_MAX_HEIGHT, at);
    packed_atlases_show_their_images(atlases, all, PACK_MAX_WIDTH, PACK_MAX_HEIGHT, a);
    lemma_atlases_small(atlases, all, a);
    crate::sheet_laws::lemma_atlas_format(atlases, all, a);
    let sheet = sheets[a];
    assert(is_icon_sheet(sheet, atlases[a], variant));
    crate::sheet_laws::lemma_sheet_shows(sheet, atlases[a]);
    assert(all[at] == images[i]);
    assert(is_icon_image(
        images[i],
        icon_name,
        identifier,
        i,
        variants,
        variant,
        pixels[i]@,
    ));
    crate::icon_renditions::lemma_icon_sides(i);
    assert(all[0].pixel_format == all[at].pixel_format);
    lemma_icon_rows(sheet, e, pixels[i]@);
    (a, e)
}

proof fn lemma_icon_rows(sheet: Sheet, e: int, pixels: Seq<u8>)
    requires
        0 <= e < sheet.atlas.images@.len(),
        sheet.atlas.images@[e].pixel_data@ == pixels,
        shows_all(sheet.atlas, sheet.atlas.pixel_data@),
    ensures
        ({
            let image = sheet.atlas.images@[e];
            forall|j: int|
                0 <= j < image.height ==> #[trigger] placed_row(sheet, image, j) == icon_row(
                    pixels,
                    image.width,
                    sheet.atlas.pixel_format@,
                    j,
                )
        }),
{
    let image = sheet.atlas.images@[e];
    let bpp = crate::packer::bytes_per_pixel(sheet.atlas.pixel_format);
    let bpr = sheet.atlas.row_bytes();
    assert(bpp == pixel_bytes(sheet.atlas.pixel_format@));
    assert(bpr == crate::sheet_laws::sheet_row(sheet));
    assert forall|j: int| 0 <= j < image.height implies #[trigger] placed_row(sheet, image, j)
        == icon_row(pixels, image.width, sheet.atlas.pixel_format@, j) by {
        assert(sheet.atlas.pixel_data@.subrange(
            crate::packer::row_target(sheet.atlas.images@[e], j, bpp, bpr),
            crate::packer::row_target(sheet.atlas.images@[e], j, bpp, bpr)
                + sheet.atlas.images@[e].width * bpp,
        ) == crate::packer::image_row(sheet.atlas.images@[e], j, bpp));
    }
}

proof fn lemma_icon_images_ready(
    images: Seq<PackedImage>,
    all: Seq<PackedImage>,
    order: Seq<usize>,
    icon_name: Seq<char>,
    identifier: u16,
    variants: bool,
    variant: u16,
    pixels: Seq<Vec<u8>>,
)
    requires
        are_icon_images(images, icon_name, identifier, variants, variant, pixels),
        is_stable_order(size_keys(images), order),
        all == arranged(images, order),
        forall|k: int|
            0 <= k < 3 ==> (#[trigger] pixels[k])@.len() == icon_side(k) * (icon_side(k)
                * pixel_bytes(crate::icon_renditions::icon_format(variants, variant))),
    ensures
        sides_fit(all),
        images_match(all),
        order.len() == 3,
        all.len() == 3,
        forall|i: int|
            0 <= i < all.len() ==> (#[trigger] all[i]).width <= PACK_MAX_WIDTH - 4 && all[i].height
                <= PACK_MAX_HEIGHT - 4,
{
    assert(size_keys(images).len() == images.len());
    assert forall|i: int| 0 <= i < all.len() implies is_complete(#[trigger] all[i])
        && all[i].pixel_format == all[0].pixel_format && all[i].width <= PACK_MAX_WIDTH - 4
        && all[i].height <= PACK_MAX_HEIGHT - 4 by {
        let a = order[i] as int;
        let b = order[0] as int;
        assert(is_icon_image(
            images[a],
            icon_name,
            identifier,
            a,
            variants,
            variant,
            pixels[a]@,
        ));
        assert(is_icon_image(
            images[b],
            icon_name,
            identifier,
            b,
            variants,
            variant,
            pixels[b]@,
        ));
        crate::icon_renditions::lemma_icon_sides(a);
        assert(all[i].pixel_format =~= all[0].pixel_format);
    }
}

/// Whether a rendition holds a color of a palette: its space and its components.
pub open spec fn holds_palette_color(r: RenditionModel, color: ColorModel, identifier: u16) -> bool {
    &&& r.name == color.name
    &&& r.identifier == identifier
    &&& r.part == 217
    &&& r.layout == 1009
    &&& match r.csi_override {
        Some(stored) => {
            &&& tells_name(stored, 1009, color.name)
            &&& tells_color(body_of(stored), color.space, color.components.len())
            &&& forall|i: int|
                0 <= i < color.components.len() ==> read_le64(body_of(stored), 16 + 8 * i)
                    == #[trigger] color.components[i]
        },
        None => false,
    }
}

/// Every color of a palette is stored under its name, with its components.
pub proof fn palette_colors_are_stored<H: Fn(&str) -> u16>(
    t: Target,
    hash: H,
    l: ListModel,
    colors: Seq<ColorModel>,
    n: nat,
    k: int,
)
    requires
        0 <= k < n <= colors.len(),
        colors[k].components.len() < 0x1000_0000,
    ensures
        ({
            let out = with_icon_colors(t, hash, l, colors, n);
            &&& out.renditions.len() == l.renditions.len() + n
            &&& holds_palette_color(
                out.renditions[l.renditions.len() + k],
                colors[k],
                value_of(hash, colors[k].name),
            )
        }),
    decreases n,
{
    lemma_color_count(t, hash, l, colors, n);
    lemma_color_count(t, hash, l, colors, (n - 1) as nat);
    if k == n - 1 {
        let c = colors[k];
        let data = color_data(c.space, c.components);
        colors_read_back(c.space, c.components);
        lemma_color_len(data, c.space, c.components.len());
        color_renditions_read_back(1009, c.name, data);
    } else {
        palette_colors_are_stored(t, hash, l, colors, (n - 1) as nat, k);
    }
}

proof fn lemma_color_len(data: Seq<u8>, space: u32, count: nat)
    requires
        tells_color(data, space, count),
        count < 0x1000_0000,
    ensures
        data.len() <= u32::MAX,
{
    reveal(tells_color);
}

proof fn lemma_color_count<H: Fn(&str) -> u16>(
    t: Target,
    hash: H,
    l: ListModel,
    colors: Seq<ColorModel>,
    n: nat,
)
    ensures
        with_icon_colors(t, hash, l, colors, n).renditions.len() == l.renditions.len() + n,
    decreases n,
{
    if n > 0 {
        lemma_color_count(t, hash, l, colors, (n - 1) as nat);
    }
}

/// Whether a rendition holds a gradient of a palette.
pub open spec fn holds_palette_gradient(
    r: RenditionModel,
    gradient: GradientModel,
    identifier: u16,
) -> bool {
    &&& r.name == gradient.name
    &&& r.identifier == identifier
    &&& r.part == 247
    &&& r.layout == 1021
    &&& match r.csi_override {
        Some(stored) => tells_name(stored, 1021, gradient.name) && tells_gradient(
            body_of(stored),
            gradient.geometry,
            gradient.stops,
            gradient.kind,
        ),
        None => false,
    }
}

/// Every gradient of a palette is stored under its name, with its points and its stops.
pub proof fn palette_gradients_are_stored<H: Fn(&str) -> u16>(
    t: Target,
    hash: H,
    l: ListModel,
    gradients: Seq<GradientModel>,
    n: nat,
    k: int,
)
    requires
        0 <= k < n <= gradients.len(),
        gradients[k].geometry.len() == 4,
        gradients[k].stops.len() <= u32::MAX,
        forall|i: int|
            0 <= i < gradients[k].stops.len() ==> vstd::utf8::encode_utf8(
                (#[trigger] gradients[k].stops[i]).1,
            ).len() < u32::MAX,
        gradient_data(
            gradients[k].geometry,
            gradients[k].stops,
            gradients[k].kind,
        ).len() <= u32::MAX,
    ensures
        ({
            let out = with_icon_gradients(t, hash, l, gradients, n);
            &&& out.renditions.len() == l.renditions.len() + n
            &&& holds_palette_gradient(
                out.renditions[l.renditions.len() + k],
                gradients[k],
                value_of(hash, gradients[k].name),
            )
        }),
    decreases n,
{
    lemma_gradient_count(t, hash, l, gradients, n);
    lemma_gradient_count(t, hash, l, gradients, (n - 1) as nat);
    if k == n - 1 {
        let g = gradients[k];
        let data = gradient_data(g.geometry, g.stops, g.kind);
        gradients_read_back(g.geometry, g.stops, g.kind);
        color_renditions_read_back(1021, g.name, data);
    } else {
        palette_gradients_are_stored(t, hash, l, gradients, (n - 1) as nat, k);
    }
}

proof fn lemma_gradient_count<H: Fn(&str) -> u16>(
    t: Target,
    hash: H,
    l: ListModel,
    gradients: Seq<GradientModel>,
    n: nat,
)
    ensures
        with_icon_gradients(t, hash, l, gradients, n).renditions.len() == l.renditions.len() + n,
    decreases n,
{
    if n > 0 {
        lemma_gradient_count(t, hash, l, gradients, (n - 1) as nat);
    }
}

/// The source of a layer is stored with the pixels of its image, as not opaque, or as
/// the document that it is.
pub proof fn layer_sources_are_stored<H: Fn(&str) -> u16>(
    t: Target,
    hash: H,
    bundle: crate::files::Item,
    facet: Seq<char>,
    path: Seq<char>,
    data: Seq<u8>,
)
    requires
        crate::files::item_at(bundle, path) is Some,
        crate::catalog::file_data(crate::files::item_at(bundle, path)->0) == Some(data),
        12 + data.len() <= u32::MAX,
        data.len() + 128 <= usize::MAX,
    ensures
        match asset_rendition(t, hash, bundle, (facet, path)) {
            Ok(r) => {
                &&& r.identifier == value_of(hash, facet)
                &&& r.part == 181
                &&& if is_svg_file(path) {
                    r.csi_override matches Some(stored) && holds_document(stored, data)
                } else {
                    &&& loaded_image(path, data, false) == Some(
                        (r.pixel_data, r.width, r.height, r.pixel_format),
                    )
                    &&& r.force_non_opaque
                    &&& r.csi_override is None
                    &&& r.layout == 12
                    &&& r.scale == 1
                }
            },
            Err(_) => !is_svg_file(path) && loaded_image(path, data, false) is None,
        },
{
    documents_are_kept("image.svg"@, data);
}

/// Whether a rendition stores layers: in a stack or in a group.
pub open spec fn stores_layers(
    r: RenditionModel,
    layers: Seq<LayerRef>,
    dim: u32,
    stacked: bool,
) -> bool {
    r.csi_override matches Some(stored) && list_layers(tags_of(stored), layers, dim, stacked)
}

proof fn lemma_rest_after(list: Seq<u8>, a: Seq<u8>, b: Seq<u8>, c: Seq<u8>)
    ensures
        list + a + b + c == list + (a + b + c),
        list + a + b == list + (a + b),
{
    assert(list + a + b + c =~= list + (a + b + c));
    assert(list + a + b =~= list + (a + b));
}

proof fn lemma_small_tags()
    ensures
        (opacity_tlv(0x3f80_0000) + layered_type_tlv() + orientation_tlv(1)).len() <= 500,
        (opacity_tlv(0x3f80_0000) + orientation_tlv(1)).len() <= 500,
        empty_data().len() == 12,
        be32(crate::csi::PIXELFMT_DATA).len() == 4,
{
    reveal_strlit("public.layeredimage");
    vstd::utf8::is_ascii_chars_encode_utf8("public.layeredimage"@);
}

/// A stack stores its layers for an appearance, under the identifier of the icon.
pub proof fn stacks_store_their_layers(
    t: Target,
    icon_name: Seq<char>,
    identifier: u16,
    appearance: u16,
    layers: Seq<LayerRef>,
)
    requires
        layers.len() <= 0x10_0000,
    ensures
        ({
            let r = stack_rendition(t, icon_name, identifier, appearance, layers);
            &&& r.identifier == identifier
            &&& r.part == 245
            &&& r.layout == 1019
            &&& r.appearance == appearance
            &&& r.width == 1024
            &&& r.height == 1024
            &&& stores_layers(r, layers, 0, true)
        }),
{
    let list = layers_tlv(layers, 0, true);
    let rest = opacity_tlv(0x3f80_0000) + layered_type_tlv() + orientation_tlv(1);
    let tags = list + opacity_tlv(0x3f80_0000) + layered_type_tlv() + orientation_tlv(1);
    lemma_rest_after(list, opacity_tlv(0x3f80_0000), layered_type_tlv(), orientation_tlv(1));
    lemma_small_tags();
    layers_read_back(layers, 0, true, rest);
    crate::csi_laws::lemma_layers_len(layers, 0, true);
    lemma_stored_layers(
        1024,
        1019,
        icon_name + ".iconstack"@,
        list,
        rest,
        layers,
        0,
        true,
    );
}

/// A group stores its layers for an appearance, under its identifier.
pub proof fn groups_store_their_layers(
    t: Target,
    identifier: u16,
    appearance: u16,
    layers: Seq<LayerRef>,
)
    requires
        layers.len() <= 0x10_0000,
    ensures
        ({
            let r = group_rendition(t, identifier, appearance, layers);
            &&& r.identifier == identifier
            &&& r.part == 246
            &&& r.layout == 1020
            &&& r.appearance == appearance
            &&& stores_layers(r, layers, 1024, false)
        }),
{
    let list = layers_tlv(layers, 1024, false);
    let rest = opacity_tlv(0x3f80_0000) + orientation_tlv(1);
    lemma_rest_after(list, opacity_tlv(0x3f80_0000), orientation_tlv(1), Seq::empty());
    lemma_small_tags();
    layers_read_back(layers, 1024, false, rest);
    crate::csi_laws::lemma_layers_len(layers, 1024, false);
    lemma_stored_layers(0, 1020, "IconGroup"@, list, rest, layers, 1024, false);
}

proof fn lemma_stored_layers(
    side: u32,
    layout: u16,
    name: Seq<char>,
    list: Seq<u8>,
    rest: Seq<u8>,
    layers: Seq<LayerRef>,
    dim: u32,
    stacked: bool,
)
    requires
        list.len() <= 0x1000_0000,
        rest.len() <= 500,
        list_layers(list + rest, layers, dim, stacked),
    ensures
        list_layers(
            tags_of(
                csi(
                    side,
                    side,
                    100,
                    be32(crate::csi::PIXELFMT_DATA),
                    layout,
                    name,
                    list + rest,
                    empty_data(),
                    0,
                    0,
                    1,
                ),
            ),
            layers,
            dim,
            stacked,
        ),
{
    lemma_small_tags();
    let format = be32(crate::csi::PIXELFMT_DATA);
    let tags = list + rest;
    headers_read_back(side, side, 100, format, layout, name, tags, empty_data(), 0, 0, 1);
    lemma_parts_told(
        csi(side, side, 100, format, layout, name, tags, empty_data(), 0, 0, 1),
        tags,
        empty_data(),
        1,
    );
}

/// The layers of a stack: the gradient at the back, then the groups from the last to the
/// first.
pub proof fn stacks_are_from_back_to_front(gradient: u16, infos: Seq<(u16, Seq<LayerRef>)>, i: int)
    requires
        0 <= i < infos.len(),
    ensures
        ({
            let layers = stack_refs(gradient, infos);
            &&& layers.len() == infos.len() + 1
            &&& layers[0].part == 247
            &&& layers[0].identifier == gradient
            &&& layers[infos.len() - i].part == 246
            &&& layers[infos.len() - i].identifier == infos[i].0
        }),
{
}

/// The layers of a group: those that have an image and are not hidden, by the
/// identifiers of their images; one more comes last.
pub proof fn groups_list_their_layers<H: Fn(&str) -> u16>(
    hash: H,
    icon_name: Seq<char>,
    group: Group,
    n: nat,
)
    requires
        n < group.layers@.len(),
    ensures
        ({
            let before = group_refs(hash, icon_name, group, n);
            let after = group_refs(hash, icon_name, group, n + 1);
            let layer = group.layers@[n as int];
            &&& group_refs(hash, icon_name, group, 0).len() == 0
            &&& layer.image_name is None || layer.hidden == Some(true) ==> after == before
            &&& layer.image_name is Some && layer.hidden != Some(true) ==> {
                &&& after.len() == before.len() + 1
                &&& after.drop_last() == before
                &&& after.last().part == 181
                &&& after.last().identifier == value_of(
                    hash,
                    asset_facet(icon_name, layer.image_name->0@),
                )
            }
        }),
{
    let before = group_refs(hash, icon_name, group, n);
    let after = group_refs(hash, icon_name, group, n + 1);
    let layer = group.layers@[n as int];
    if layer.image_name is Some && layer.hidden != Some(true) {
        assert(after.drop_last() =~= before);
    }
}

/// Whether a list holds, from `at` on, the stack of an icon for an appearance, on a
/// gradient, and its groups behind it.
#[verifier::opaque]
pub open spec fn is_stack_at(
    list: Seq<RenditionModel>,
    at: int,
    t: Target,
    icon_name: Seq<char>,
    identifier: u16,
    appearance: u16,
    gradient: u16,
    infos: Seq<(u16, Seq<LayerRef>)>,
) -> bool {
    &&& at + 1 + infos.len() <= list.len()
    &&& list[at] == stack_rendition(
        t,
        icon_name,
        identifier,
        appearance,
        stack_refs(gradient, infos),
    )
    &&& forall|g: int|
        0 <= g < infos.len() ==> #[trigger] list[at + 1 + g] == group_rendition(
            t,
            infos[g].0,
            appearance,
            infos[g].1,
        )
}

proof fn lemma_stack_stays(
    list: Seq<RenditionModel>,
    more: Seq<RenditionModel>,
    at: int,
    t: Target,
    icon_name: Seq<char>,
    identifier: u16,
    appearance: u16,
    gradient: u16,
    infos: Seq<(u16, Seq<LayerRef>)>,
)
    requires
        0 <= at,
        is_stack_at(list, at, t, icon_name, identifier, appearance, gradient, infos),
        begins_with(more, list),
    ensures
        is_stack_at(more, at, t, icon_name, identifier, appearance, gradient, infos),
{
    reveal(is_stack_at);
}

/// Icons have three stacks: the dark one on the second gradient, if there are two, then
/// the light and the tintable one on the first.
pub proof fn icons_have_three_stacks<H: Fn(&str) -> u16>(
    t: Target,
    hash: H,
    l: ListModel,
    icon_name: Seq<char>,
    names: Seq<Seq<char>>,
    groups: Seq<Group>,
    gradients: Seq<GradientModel>,
)
    requires
        gradients.len() > 0,
    ensures
        ({
            let n = if names.len() < groups.len() {
                names.len()
            } else {
                groups.len()
            };
            let infos = group_infos(hash, icon_name, names, groups, n);
            let id = value_of(hash, icon_name);
            let first = value_of(hash, gradients[0].name);
            let second = if gradients.len() > 1 {
                value_of(hash, gradients[1].name)
            } else {
                first
            };
            let out = with_stacks(t, hash, l, icon_name, names, groups, gradients).renditions;
            let at = l.renditions.len() as int;
            let step = infos.len() + 1;
            &&& out.len() == at + 3 * step
            &&& is_stack_at(out, at, t, icon_name, id, 1, second, infos)
            &&& is_stack_at(out, at + step, t, icon_name, id, 8, first, infos)
            &&& is_stack_at(out, at + 2 * step, t, icon_name, id, 10, first, infos)
        }),
{
    let n = if names.len() < groups.len() {
        names.len()
    } else {
        groups.len()
    };
    let infos = group_infos(hash, icon_name, names, groups, n);
    let id = value_of(hash, icon_name);
    let first = value_of(hash, gradients[0].name);
    let second = if gradients.len() > 1 {
        value_of(hash, gradients[1].name)
    } else {
        first
    };
    let dark = with_stack(t, l, icon_name, id, 1, second, infos);
    let light = with_stack(t, dark, icon_name, id, 8, first, infos);
    let last = with_stack(t, light, icon_name, id, 10, first, infos);
    let at = l.renditions.len() as int;
    let step = infos.len() + 1;
    lemma_stack(t, l, icon_name, id, 1, second, infos);
    lemma_stack(t, dark, icon_name, id, 8, first, infos);
    lemma_stack(t, light, icon_name, id, 10, first, infos);
    lemma_stack_stays(
        dark.renditions,
        light.renditions,
        at,
        t,
        icon_name,
        id,
        1,
        second,
        infos,
    );
    lemma_stack_stays(light.renditions, last.renditions, at, t, icon_name, id, 1, second, infos);
    lemma_stack_stays(
        light.renditions,
        last.renditions,
        at + step,
        t,
        icon_name,
        id,
        8,
        first,
        infos,
    );
}

proof fn lemma_stack(
    t: Target,
    l: ListModel,
    icon_name: Seq<char>,
    identifier: u16,
    appearance: u16,
    gradient: u16,
    infos: Seq<(u16, Seq<LayerRef>)>,
)
    ensures
        ({
            let out = with_stack(t, l, icon_name, identifier, appearance, gradient, infos).renditions;
            let at = l.renditions.len() as int;
            &&& out.len() == at + infos.len() + 1
            &&& begins_with(out, l.renditions)
            &&& is_stack_at(out, at, t, icon_name, identifier, appearance, gradient, infos)
        }),
{
    reveal(is_stack_at);
    let first = crate::icon_renditions::plus_rendition(
        l,
        stack_rendition(
            t,
            icon_name,
            identifier,
            appearance,
            stack_refs(gradient, infos),
        ),
    );
    lemma_groups(t, first, appearance, infos, infos.len());
}

proof fn lemma_groups(
    t: Target,
    l: ListModel,
    appearance: u16,
    infos: Seq<(u16, Seq<LayerRef>)>,
    n: nat,
)
    requires
        n <= infos.len(),
    ensures
        ({
            let out = with_groups(t, l, appearance, infos, n).renditions;
            let at = l.renditions.len() as int;
            &&& out.len() == at + n
            &&& forall|k: int| 0 <= k < at ==> #[trigger] out[k] == l.renditions[k]
            &&& forall|g: int|
                0 <= g < n ==> #[trigger] out[at + g] == group_rendition(
                    t,
                    infos[g].0,
                    appearance,
                    infos[g].1,
                )
        }),
    decreases n,
{
    if n > 0 {
        lemma_groups(t, l, appearance, infos, (n - 1) as nat);
    }
}

proof fn lemma_size_entries(entries: Seq<MultisizeImageEntry>, i: int)
    requires
        0 <= i < entries.len(),
    ensures
        size_entries(entries).len() == 12 * entries.len(),
        ({
            let all = size_entries(entries);
            &&& all.subrange(12 * i, 12 * i + 4) == le32(entries[i].width)
            &&& all.subrange(12 * i + 4, 12 * i + 8) == le32(entries[i].height)
            &&& all.subrange(12 * i + 8, 12 * i + 12) == le32(entries[i].index)
        }),
    decreases entries.len(),
{
    let all = size_entries(entries);
    let rest = size_entries(entries.drop_last());
    if entries.len() > 1 {
        lemma_size_entries(entries.drop_last(), 0);
    }
    assert(rest.len() == 12 * (entries.len() - 1));
    if i == entries.len() - 1 {
        assert(all.subrange(12 * i, 12 * i + 4) =~= le32(entries[i].width));
        assert(all.subrange(12 * i + 4, 12 * i + 8) =~= le32(entries[i].height));
        assert(all.subrange(12 * i + 8, 12 * i + 12) =~= le32(entries[i].index));
    } else {
        lemma_size_entries(entries.drop_last(), i);
        assert(all.subrange(12 * i, 12 * i + 4) =~= rest.subrange(12 * i, 12 * i + 4));
        assert(all.subrange(12 * i + 4, 12 * i + 8) =~= rest.subrange(12 * i + 4, 12 * i + 8));
        assert(all.subrange(12 * i + 8, 12 * i + 12) =~= rest.subrange(12 * i + 8, 12 * i + 12));
    }
}

/// The list of the sizes of an icon reads back: how many there are, and width, height and
/// number of each.
pub proof fn size_lists_read_back(entries: Seq<MultisizeImageEntry>, i: int)
    requires
        0 <= i < entries.len() <= u32::MAX,
    ensures
        ({
            let data = sizes_data(entries);
            &&& data.len() == 12 + 12 * entries.len()
            &&& read_le32(data, 4) == 1
            &&& read_le32(data, 8) == entries.len()
            &&& read_le32(data, 12 + 12 * i) == entries[i].width
            &&& read_le32(data, 16 + 12 * i) == entries[i].height
            &&& read_le32(data, 20 + 12 * i) == entries[i].index
        }),
{
    let data = sizes_data(entries);
    let all = size_entries(entries);
    lemma_size_entries(entries, i);
    assert(data.subrange(4, 8) =~= le32(1));
    assert(data.subrange(8, 12) =~= le32(entries.len() as u32));
    assert(data.subrange(12 + 12 * i, 16 + 12 * i) =~= all.subrange(12 * i, 12 * i + 4));
    assert(data.subrange(16 + 12 * i, 20 + 12 * i) =~= all.subrange(12 * i + 4, 12 * i + 8));
    assert(data.subrange(20 + 12 * i, 24 + 12 * i) =~= all.subrange(12 * i + 8, 12 * i + 12));
    le32_reads_back(data, 4, 1);
    le32_reads_back(data, 8, entries.len() as u32);
    le32_reads_back(data, 12 + 12 * i, entries[i].width);
    le32_reads_back(data, 16 + 12 * i, entries[i].height);
    le32_reads_back(data, 20 + 12 * i, entries[i].index);
}

/// The sizes of an icon are listed in points, each under its number.
pub proof fn icons_list_their_sizes(i: int)
    requires
        0 <= i < 7,
    ensures
        icon_entries().len() == 7,
        icon_entries()[i].width == icon_size(i).0,
        icon_entries()[i].height == icon_size(i).0,
        icon_entries()[i].index == i + 1,
{
}

} // verus!
