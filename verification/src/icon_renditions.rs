//! The renditions of an `.icon` bundle, and the names they have.

use vstd::prelude::*;
use vstd::string::StrSliceExecFns;

use crate::bytes::be32;
use crate::car::{
    colorspace_for_pixel_format, colorspace_of_format, ELEMENT_UNIVERSAL, LAYOUT_COLOR,
    LAYOUT_GRADIENT, LAYOUT_ICONSTACK, LAYOUT_ICON_GROUP, LAYOUT_PDF, PART_COLOR, PART_ICON,
    PART_ICON_COMPOSER, PART_ICON_GRADIENT, PART_ICON_GROUP, PART_REGULAR,
};
use crate::catalog::{file_data, models, svg_stored};
use crate::compress::LZFSE_SLACK;
use crate::csi::{
    build_icon_color_csi, build_icon_gradient_csi, build_icongroup_csi, build_iconstack_csi,
    build_svg_csi, color_csi, color_data, csi, empty_data, gradient_data, layered_type_tlv,
    layers_tlv, opacity_tlv, orientation_tlv, LayerRef, ONE, PIXELFMT_DATA, PIXELFMT_SVG,
};
use crate::entries::{check_ending, ends_in};
use crate::facets::Facet;
use crate::files::{extension, file_name, file_name_of, item_at, split_extension, Item};
use crate::formats::{bgra, bgra_name, ga16, ga16_name, ga8, ga8_name};
use crate::icon_bundle::{
    asset_facet, asset_views, bundle_data, make_asset_facet, CANVAS, IconError, IconFault,
    LayerAsset,
};
use crate::icon_json::Group;
use crate::icon_names::{pre_rendered, pre_rendered_name};
use crate::naming::{ask, is_text_function, value_of};
use crate::order::texts;
use crate::palette::{
    gradient_views, ColorModel, GradientAsset, GradientModel, Palette, PaletteModel,
};
use crate::pixels::{load_image_as_bgra, loaded_image};
use crate::rendition::{
    build_multisize_rendition, plain_rendition, sizes_rendition, MultisizeImageEntry, Rendition,
    RenditionModel,
};
use crate::text::put_str;

verus! {

/// What an icon is compiled for.
pub struct Target {
    pub min_deploy: Seq<char>,
    pub platform: Seq<char>,
}

/// The renditions of an icon, and the names they have.
pub struct IconList {
    pub renditions: Vec<Rendition>,
    pub facets: Vec<(String, Facet)>,
}

/// Names and what they stand for.
pub open spec fn facet_views(facets: Seq<(String, Facet)>) -> Seq<(Seq<char>, Facet)> {
    Seq::new(facets.len(), |i: int| (facets[i].0@, facets[i].1))
}

/// Renditions and names as mathematical values.
#[verifier::ext_equal]
pub struct ListModel {
    pub renditions: Seq<RenditionModel>,
    pub facets: Seq<(Seq<char>, Facet)>,
}

impl View for IconList {
    type V = ListModel;

    open spec fn view(&self) -> ListModel {
        ListModel { renditions: models(self.renditions@), facets: facet_views(self.facets@) }
    }
}

/// A list with one more rendition.
pub open spec fn plus_rendition(l: ListModel, r: RenditionModel) -> ListModel {
    ListModel { renditions: l.renditions.push(r), ..l }
}

/// A list with one more name.
pub open spec fn plus_name(l: ListModel, name: Seq<char>, part: u16, identifier: u16) -> ListModel {
    ListModel {
        facets: l.facets.push(
            (name, Facet { element: ELEMENT_UNIVERSAL, part: Some(part), identifier }),
        ),
        ..l
    }
}

impl IconList {
    /// An empty list.
    pub fn new() -> (l: Self)
        ensures
            l@ == (ListModel { renditions: Seq::empty(), facets: Seq::empty() }),
    {
        let l = IconList { renditions: Vec::new(), facets: Vec::new() };
        assert(l@ =~= (ListModel { renditions: Seq::empty(), facets: Seq::empty() }));
        l
    }

    /// Adds a rendition.
    pub fn push(&mut self, r: Rendition)
        ensures
            final(self)@ == plus_rendition(old(self)@, r@),
    {
        self.renditions.push(r);
        assert(self@ =~= plus_rendition(old(self)@, r@));
    }

    /// Adds a name.
    pub fn name(&mut self, name: &str, part: u16, identifier: u16)
        ensures
            final(self)@ == plus_name(old(self)@, name@, part, identifier),
    {
        self.facets.push(
            (
                name.to_owned(),
                Facet { element: ELEMENT_UNIVERSAL, part: Some(part), identifier },
            ),
        );
        assert(self@ =~= plus_name(old(self)@, name@, part, identifier));
    }
}

/// How many sizes an icon is rendered in.
pub const ICON_SIZES: usize = 7;

/// How many of them are small enough for an atlas.
pub const ATLAS_SIZES: usize = 3;

/// The sizes an icon is rendered in, in points and with their scale.
pub open spec fn icon_size(i: int) -> (u32, u32) {
    if i == 0 {
        (16, 2)
    } else if i == 1 {
        (32, 2)
    } else if i == 2 {
        (64, 2)
    } else if i == 3 {
        (128, 2)
    } else if i == 4 {
        (256, 2)
    } else if i == 5 {
        (512, 2)
    } else {
        (1024, 1)
    }
}

/// The sizes an icon is rendered in.
pub fn macos_icon_size(i: usize) -> (size: (u32, u32))
    ensures
        size == icon_size(i as int),
{
    if i == 0 {
        (16, 2)
    } else if i == 1 {
        (32, 2)
    } else if i == 2 {
        (64, 2)
    } else if i == 3 {
        (128, 2)
    } else if i == 4 {
        (256, 2)
    } else if i == 5 {
        (512, 2)
    } else {
        (1024, 1)
    }
}

/// The number of a size; 0 for a size that icons are not rendered in.
pub open spec fn size_number(point_size: u32) -> u16 {
    if point_size == 16 {
        1
    } else if point_size == 32 {
        2
    } else if point_size == 64 {
        3
    } else if point_size == 128 {
        4
    } else if point_size == 256 {
        5
    } else if point_size == 512 {
        6
    } else if point_size == 1024 {
        7
    } else {
        0
    }
}

/// The number of a size.
pub fn icon_dim2(point_size: u32) -> (dim2: u16)
    ensures
        dim2 == size_number(point_size),
{
    if point_size == 16 {
        1
    } else if point_size == 32 {
        2
    } else if point_size == 64 {
        3
    } else if point_size == 128 {
        4
    } else if point_size == 256 {
        5
    } else if point_size == 512 {
        6
    } else if point_size == 1024 {
        7
    } else {
        0
    }
}

/// The sizes an icon is rendered in have numbers of their own, from one on.
pub proof fn sizes_are_numbered(i: int)
    requires
        0 <= i < ICON_SIZES,
    ensures
        size_number(icon_size(i).0) == i + 1,
{
}

/// The pixel format of a rendered icon: with an alternative for the dark
/// appearance, both are gray.
pub open spec fn icon_format(variants: bool, variant: u16) -> Seq<u8> {
    if !variants {
        bgra_name()
    } else if variant == 0 {
        ga8_name()
    } else {
        ga16_name()
    }
}

/// The color space of a rendered icon.
pub open spec fn icon_space(variants: bool, variant: u16) -> u32 {
    if !variants {
        colorspace_of_format(bgra_name())
    } else if variant == 0 {
        2
    } else {
        6
    }
}

/// The pixel format of a rendered icon.
pub fn find_icon_format(variants: bool, variant: u16) -> (format: [u8; 4])
    ensures
        format@ == icon_format(variants, variant),
{
    if !variants {
        bgra()
    } else if variant == 0 {
        ga8()
    } else {
        ga16()
    }
}

/// The side of a rendered icon in pixels.
pub open spec fn icon_side(i: int) -> u32 {
    (icon_size(i).0 * icon_size(i).1) as u32
}

/// No icon is rendered more than 1024 pixels wide, and none of the small ones more
/// than 128.
pub proof fn lemma_icon_sides(i: int)
    ensures
        icon_size(i).0 * icon_size(i).1 == icon_side(i),
        icon_side(i) <= 1024,
        0 <= i < ATLAS_SIZES ==> icon_side(i) <= 128,
{
    if i == 0 {
        assert(16 * 2 == 32);
    } else if i == 1 {
        assert(32 * 2 == 64);
    } else if i == 2 {
        assert(64 * 2 == 128);
    } else if i == 3 {
        assert(128 * 2 == 256);
    } else if i == 4 {
        assert(256 * 2 == 512);
    } else if i == 5 {
        assert(512 * 2 == 1024);
    } else {
        assert(1024 * 1 == 1024);
    }
}

/// A rendered icon that is stored on its own.
pub open spec fn sized_icon(
    t: Target,
    icon_name: Seq<char>,
    identifier: u16,
    i: int,
    variants: bool,
    variant: u16,
    pixels: Seq<u8>,
) -> RenditionModel {
    RenditionModel {
        name: pre_rendered(icon_name, icon_size(i).0, icon_size(i).1, "NSAppearanceNameSystem"@),
        identifier,
        part: PART_ICON,
        scale: icon_size(i).1 as u16,
        width: icon_side(i),
        height: icon_side(i),
        pixel_data: pixels,
        pixel_format: icon_format(variants, variant),
        dim2: size_number(icon_size(i).0),
        variant,
        template_rendering_intent: 0,
        colorspace_id: icon_space(variants, variant),
        min_deploy: t.min_deploy,
        platform: t.platform,
        ..plain_rendition()
    }
}

/// A rendered icon that is stored on its own.
pub fn make_sized_icon(
    icon_name: &str,
    identifier: u16,
    i: usize,
    variants: bool,
    variant: u16,
    pixels: Vec<u8>,
    min_deploy: &str,
    platform: &str,
) -> (r: Rendition)
    requires
        i < ICON_SIZES,
    ensures
        r@ == sized_icon(
            Target { min_deploy: min_deploy@, platform: platform@ },
            icon_name@,
            identifier,
            i as int,
            variants,
            variant,
            pixels@,
        ),
{
    let (points, scale) = macos_icon_size(i);
    let mut r = Rendition::default();
    r.name = pre_rendered_name(icon_name, points, scale, "NSAppearanceNameSystem");
    r.identifier = identifier;
    r.part = PART_ICON;
    r.scale = scale as u16;
    r.width = points * scale;
    r.height = points * scale;
    r.pixel_data = pixels;
    r.pixel_format = find_icon_format(variants, variant);
    r.dim2 = icon_dim2(points);
    r.variant = variant;
    r.template_rendering_intent = 0;
    r.colorspace_id = if !variants {
        colorspace_for_pixel_format(&bgra())
    } else if variant == 0 {
        2
    } else {
        6
    };
    r.min_deploy = min_deploy.to_owned();
    r.platform = platform.to_owned();
    r
}

/// The list of the sizes of an icon.
pub open spec fn icon_entries() -> Seq<MultisizeImageEntry> {
    Seq::new(
        ICON_SIZES as nat,
        |i: int|
            MultisizeImageEntry {
                width: icon_size(i).0,
                height: icon_size(i).0,
                index: size_number(icon_size(i).0) as u32,
            },
    )
}

/// The rendition that lists the sizes of an icon.
pub fn make_size_list(icon_name: &str, identifier: u16) -> (r: Rendition)
    ensures
        r@ == sizes_rendition(icon_name@, identifier, icon_entries()),
{
    let mut entries: Vec<MultisizeImageEntry> = Vec::new();
    let mut i: usize = 0;
    while i < ICON_SIZES
        invariant
            i <= ICON_SIZES,
            entries@ == icon_entries().take(i as int),
        decreases ICON_SIZES - i,
    {
        let (points, _) = macos_icon_size(i);
        let number: u16 = icon_dim2(points);
        entries.push(
            MultisizeImageEntry { width: points, height: points, index: number as u32 },
        );
        i = i + 1;
        assert(entries@ =~= icon_entries().take(i as int));
    }
    assert(entries@ =~= icon_entries());
    build_multisize_rendition(icon_name, identifier, entries.as_slice())
}

/// Something of an icon that is stored as it is.
pub open spec fn kept(
    t: Target,
    name: Seq<char>,
    identifier: u16,
    part: u16,
    layout: u16,
    format: Seq<u8>,
    stored: Seq<u8>,
) -> RenditionModel {
    RenditionModel {
        name,
        identifier,
        part,
        layout,
        pixel_format: format,
        colorspace_id: 0,
        csi_override: Some(stored),
        min_deploy: t.min_deploy,
        platform: t.platform,
        ..plain_rendition()
    }
}

fn make_kept(
    name: &str,
    identifier: u16,
    part: u16,
    layout: u16,
    format: [u8; 4],
    stored: Vec<u8>,
    min_deploy: &str,
    platform: &str,
) -> (r: Rendition)
    ensures
        r@ == kept(
            Target { min_deploy: min_deploy@, platform: platform@ },
            name@,
            identifier,
            part,
            layout,
            format@,
            stored@,
        ),
{
    let mut r = Rendition::default();
    r.name = name.to_owned();
    r.identifier = identifier;
    r.part = part;
    r.layout = layout;
    r.pixel_format = format;
    r.colorspace_id = 0;
    r.csi_override = Some(stored);
    r.min_deploy = min_deploy.to_owned();
    r.platform = platform.to_owned();
    r
}

fn svg_letters() -> (format: [u8; 4])
    ensures
        format@ == be32(PIXELFMT_SVG),
{
    let format: [u8; 4] = [32, 71, 86, 83];
    assert(format@ =~= be32(PIXELFMT_SVG));
    format
}

fn data_letters() -> (format: [u8; 4])
    ensures
        format@ == be32(PIXELFMT_DATA),
{
    let format: [u8; 4] = [65, 84, 65, 68];
    assert(format@ =~= be32(PIXELFMT_DATA));
    format
}

fn no_letters() -> (format: [u8; 4])
    ensures
        format@ == be32(0),
{
    let format: [u8; 4] = [0, 0, 0, 0];
    assert(format@ =~= be32(0));
    format
}

/// Whether a file is an SVG document, by its extension.
pub open spec fn is_svg_file(path: Seq<char>) -> bool {
    let kind = extension(file_name_of(path));
    kind.len() == 3 && ends_in(kind, "svg"@)
}

fn check_svg_file(path: &str) -> (answer: bool)
    ensures
        answer == is_svg_file(path@),
{
    let (_, kind) = split_extension(file_name(path));
    kind.unicode_len() == 3 && check_ending(kind, "svg")
}

/// The source of a layer: documents are kept as they are; images are stored as not
/// opaque, so that layers below them show through.
pub open spec fn asset_rendition<H: Fn(&str) -> u16>(
    t: Target,
    hash: H,
    bundle: Item,
    asset: (Seq<char>, Seq<char>),
) -> Result<RenditionModel, IconFault> {
    let identifier = value_of(hash, asset.0);
    let data = match item_at(bundle, asset.1) {
        Some(item) => file_data(item),
        None => None,
    };
    match data {
        None => Err(IconFault::Unreadable),
        Some(bytes) => if is_svg_file(asset.1) {
            if bytes.len() + LZFSE_SLACK > usize::MAX {
                Err(IconFault::TooLarge)
            } else {
                Ok(
                    kept(
                        t,
                        "image.svg"@,
                        identifier,
                        PART_REGULAR,
                        LAYOUT_PDF,
                        be32(PIXELFMT_SVG),
                        svg_stored("image.svg"@, bytes),
                    ),
                )
            }
        } else {
            match loaded_image(asset.1, bytes, false) {
                None => Err(IconFault::BadImage),
                Some((pixels, width, height, format)) => Ok(
                    RenditionModel {
                        name: "image.png"@,
                        identifier,
                        width,
                        height,
                        pixel_data: pixels,
                        pixel_format: format,
                        colorspace_id: colorspace_of_format(format),
                        force_non_opaque: true,
                        min_deploy: t.min_deploy,
                        platform: t.platform,
                        ..plain_rendition()
                    },
                ),
            }
        },
    }
}

/// A list with the sources of the first `n` layers, or what is wrong with the first
/// faulty one.
pub open spec fn with_assets<H: Fn(&str) -> u16>(
    t: Target,
    hash: H,
    bundle: Item,
    l: ListModel,
    assets: Seq<(Seq<char>, Seq<char>)>,
    n: nat,
) -> Result<ListModel, IconFault>
    decreases n,
{
    if n == 0 {
        Ok(l)
    } else {
        match with_assets(t, hash, bundle, l, assets, (n - 1) as nat) {
            Err(e) => Err(e),
            Ok(before) => match asset_rendition(t, hash, bundle, assets[n - 1]) {
                Err(e) => Err(e),
                Ok(r) => Ok(
                    plus_name(
                        plus_rendition(before, r),
                        assets[n - 1].0,
                        PART_REGULAR,
                        value_of(hash, assets[n - 1].0),
                    ),
                ),
            },
        }
    }
}

proof fn lemma_assets_stop<H: Fn(&str) -> u16>(
    t: Target,
    hash: H,
    bundle: Item,
    l: ListModel,
    assets: Seq<(Seq<char>, Seq<char>)>,
    m: nat,
    n: nat,
)
    requires
        m <= n,
        with_assets(t, hash, bundle, l, assets, m) is Err,
    ensures
        with_assets(t, hash, bundle, l, assets, n) == with_assets(t, hash, bundle, l, assets, m),
    decreases n,
{
    if m < n {
        lemma_assets_stop(t, hash, bundle, l, assets, m, (n - 1) as nat);
    }
}

fn make_asset_rendition<H: Fn(&str) -> u16>(
    asset: &LayerAsset,
    bundle: &Item,
    min_deploy: &str,
    platform: &str,
    hash: &H,
) -> (r: Result<Rendition, IconError>)
    requires
        is_text_function(*hash),
    ensures
        ({
            let want = asset_rendition(
                Target { min_deploy: min_deploy@, platform: platform@ },
                *hash,
                *bundle,
                (asset.facet_name@, asset.source_path@),
            );
            match r {
                Ok(r) => want == Ok::<RenditionModel, IconFault>(r@),
                Err(e) => want == Err::<RenditionModel, IconFault>(e@),
            }
        }),
{
    let identifier: u16 = ask(hash, asset.facet_name.as_str());
    let path = asset.source_path.as_str();
    let data = match bundle_data(bundle, path) {
        None => {
            return Err(IconError::Unreadable);
        },
        Some(data) => data,
    };
    if check_svg_file(path) {
        if data.len() > usize::MAX - LZFSE_SLACK {
            return Err(IconError::TooLarge);
        }
        let stored = build_svg_csi("image.svg", data.as_slice());
        return Ok(
            make_kept(
                "image.svg",
                identifier,
                PART_REGULAR,
                LAYOUT_PDF,
                svg_letters(),
                stored,
                min_deploy,
                platform,
            ),
        );
    }
    match load_image_as_bgra(path, data.as_slice(), false) {
        None => Err(IconError::BadImage),
        Some((pixels, width, height, format)) => {
            let mut r = Rendition::default();
            r.name = "image.png".to_owned();
            r.identifier = identifier;
            r.width = width;
            r.height = height;
            r.pixel_data = pixels;
            r.pixel_format = format;
            r.colorspace_id = colorspace_for_pixel_format(&format);
            r.force_non_opaque = true;
            r.min_deploy = min_deploy.to_owned();
            r.platform = platform.to_owned();
            Ok(r)
        },
    }
}

/// Adds the sources of layers.
pub fn add_assets<H: Fn(&str) -> u16>(
    l: &mut IconList,
    assets: &Vec<LayerAsset>,
    bundle: &Item,
    min_deploy: &str,
    platform: &str,
    hash: &H,
) -> (result: Result<(), IconError>)
    requires
        is_text_function(*hash),
    ensures
        ({
            let out = with_assets(
                Target { min_deploy: min_deploy@, platform: platform@ },
                *hash,
                *bundle,
                old(l)@,
                asset_views(assets@),
                assets@.len(),
            );
            match result {
                Ok(()) => out == Ok::<ListModel, IconFault>(final(l)@),
                Err(e) => out == Err::<ListModel, IconFault>(e@),
            }
        }),
{
    let ghost t = Target { min_deploy: min_deploy@, platform: platform@ };
    let ghost views = asset_views(assets@);
    let mut i: usize = 0;
    while i < assets.len()
        invariant
            i <= assets@.len(),
            is_text_function(*hash),
            t == (Target { min_deploy: min_deploy@, platform: platform@ }),
            views == asset_views(assets@),
            with_assets(t, *hash, *bundle, old(l)@, views, i as nat) == Ok::<
                ListModel,
                IconFault,
            >(l@),
        decreases assets.len() - i,
    {
        match make_asset_rendition(&assets[i], bundle, min_deploy, platform, hash) {
            Err(e) => {
                proof {
                    lemma_assets_stop(
                        t,
                        *hash,
                        *bundle,
                        old(l)@,
                        views,
                        (i + 1) as nat,
                        assets@.len(),
                    );
                }
                return Err(e);
            },
            Ok(r) => {
                l.push(r);
                let name = assets[i].facet_name.as_str();
                let identifier: u16 = ask(hash, name);
                l.name(name, PART_REGULAR, identifier);
            },
        }
        i = i + 1;
    }
    Ok(())
}

/// A list with the names of the first `n` groups.
pub open spec fn with_group_names<H: Fn(&str) -> u16>(
    hash: H,
    l: ListModel,
    names: Seq<Seq<char>>,
    n: nat,
) -> ListModel
    decreases n,
{
    if n == 0 {
        l
    } else {
        plus_name(
            with_group_names(hash, l, names, (n - 1) as nat),
            names[n - 1],
            PART_ICON_GROUP,
            value_of(hash, names[n - 1]),
        )
    }
}

/// Adds the names of groups.
pub fn add_group_names<H: Fn(&str) -> u16>(l: &mut IconList, names: &Vec<String>, hash: &H)
    requires
        is_text_function(*hash),
    ensures
        final(l)@ == with_group_names(*hash, old(l)@, texts(names@), names@.len()),
{
    let mut i: usize = 0;
    while i < names.len()
        invariant
            i <= names@.len(),
            is_text_function(*hash),
            l@ == with_group_names(*hash, old(l)@, texts(names@), i as nat),
        decreases names.len() - i,
    {
        let name = names[i].as_str();
        assert(texts(names@)[i as int] == name@);
        let identifier: u16 = ask(hash, name);
        l.name(name, PART_ICON_GROUP, identifier);
        i = i + 1;
    }
}

/// A list with the first `n` colors.
pub open spec fn with_icon_colors<H: Fn(&str) -> u16>(
    t: Target,
    hash: H,
    l: ListModel,
    colors: Seq<ColorModel>,
    n: nat,
) -> ListModel
    decreases n,
{
    if n == 0 {
        l
    } else {
        let c = colors[n - 1];
        let identifier = value_of(hash, c.name);
        let stored = color_csi(LAYOUT_COLOR, c.name, color_data(c.space, c.components));
        plus_name(
            plus_rendition(
                with_icon_colors(t, hash, l, colors, (n - 1) as nat),
                kept(t, c.name, identifier, PART_COLOR, LAYOUT_COLOR, be32(0), stored),
            ),
            c.name,
            PART_COLOR,
            identifier,
        )
    }
}

/// A list with the first `n` gradients.
pub open spec fn with_icon_gradients<H: Fn(&str) -> u16>(
    t: Target,
    hash: H,
    l: ListModel,
    gradients: Seq<GradientModel>,
    n: nat,
) -> ListModel
    decreases n,
{
    if n == 0 {
        l
    } else {
        let g = gradients[n - 1];
        let identifier = value_of(hash, g.name);
        let stored = color_csi(
            LAYOUT_GRADIENT,
            g.name,
            gradient_data(g.geometry, g.stops, g.kind),
        );
        plus_name(
            plus_rendition(
                with_icon_gradients(t, hash, l, gradients, (n - 1) as nat),
                kept(t, g.name, identifier, PART_ICON_GRADIENT, LAYOUT_GRADIENT, be32(0), stored),
            ),
            g.name,
            PART_ICON_GRADIENT,
            identifier,
        )
    }
}

/// A list with a palette.
pub open spec fn with_palette<H: Fn(&str) -> u16>(
    t: Target,
    hash: H,
    l: ListModel,
    p: PaletteModel,
) -> ListModel {
    with_icon_gradients(
        t,
        hash,
        with_icon_colors(t, hash, l, p.colors, p.colors.len()),
        p.gradients,
        p.gradients.len(),
    )
}

/// Adds a palette.
pub fn add_palette<H: Fn(&str) -> u16>(
    l: &mut IconList,
    p: &Palette,
    min_deploy: &str,
    platform: &str,
    hash: &H,
)
    requires
        is_text_function(*hash),
    ensures
        final(l)@ == with_palette(
            Target { min_deploy: min_deploy@, platform: platform@ },
            *hash,
            old(l)@,
            p@,
        ),
{
    let ghost t = Target { min_deploy: min_deploy@, platform: platform@ };
    let mut i: usize = 0;
    while i < p.colors.len()
        invariant
            i <= p.colors@.len(),
            is_text_function(*hash),
            t == (Target { min_deploy: min_deploy@, platform: platform@ }),
            l@ == with_icon_colors(t, *hash, old(l)@, p@.colors, i as nat),
        decreases p.colors.len() - i,
    {
        let color = &p.colors[i];
        assert(p@.colors[i as int] == color@);
        let name = color.facet_name.as_str();
        let identifier: u16 = ask(hash, name);
        let stored = build_icon_color_csi(
            name,
            color.colorspace_id,
            color.components.as_slice(),
        );
        l.push(
            make_kept(
                name,
                identifier,
                PART_COLOR,
                LAYOUT_COLOR,
                no_letters(),
                stored,
                min_deploy,
                platform,
            ),
        );
        l.name(name, PART_COLOR, identifier);
        i = i + 1;
    }
    let ghost colored = l@;
    let mut k: usize = 0;
    while k < p.gradients.len()
        invariant
            k <= p.gradients@.len(),
            is_text_function(*hash),
            t == (Target { min_deploy: min_deploy@, platform: platform@ }),
            l@ == with_icon_gradients(t, *hash, colored, p@.gradients, k as nat),
        decreases p.gradients.len() - k,
    {
        let gradient = &p.gradients[k];
        assert(p@.gradients[k as int] == gradient@);
        let name = gradient.facet_name.as_str();
        let identifier: u16 = ask(hash, name);
        let stored = build_icon_gradient_csi(
            name,
            gradient.geometry,
            gradient.stops.as_slice(),
            gradient.kind,
        );
        l.push(
            make_kept(
                name,
                identifier,
                PART_ICON_GRADIENT,
                LAYOUT_GRADIENT,
                no_letters(),
                stored,
                min_deploy,
                platform,
            ),
        );
        l.name(name, PART_ICON_GRADIENT, identifier);
        k = k + 1;
    }
}

/// The sources of the first `n` layers of a group that are not hidden.
pub open spec fn group_refs<H: Fn(&str) -> u16>(
    hash: H,
    icon_name: Seq<char>,
    group: Group,
    n: nat,
) -> Seq<LayerRef>
    decreases n,
{
    if n == 0 {
        Seq::empty()
    } else {
        let before = group_refs(hash, icon_name, group, (n - 1) as nat);
        let layer = group.layers@[n - 1];
        match layer.image_name {
            None => before,
            Some(image) => if layer.hidden == Some(true) {
                before
            } else {
                before.push(
                    LayerRef {
                        part: PART_REGULAR,
                        identifier: value_of(hash, asset_facet(icon_name, image@)),
                    },
                )
            },
        }
    }
}

fn find_group_refs<H: Fn(&str) -> u16>(icon_name: &str, group: &Group, hash: &H) -> (refs: Vec<
    LayerRef,
>)
    requires
        is_text_function(*hash),
    ensures
        refs@ == group_refs(*hash, icon_name@, *group, group.layers@.len()),
{
    let mut refs: Vec<LayerRef> = Vec::new();
    let mut i: usize = 0;
    while i < group.layers.len()
        invariant
            i <= group.layers@.len(),
            is_text_function(*hash),
            refs@ == group_refs(*hash, icon_name@, *group, i as nat),
        decreases group.layers.len() - i,
    {
        let layer = &group.layers[i];
        let hidden = match layer.hidden {
            Some(b) => b,
            None => false,
        };
        match &layer.image_name {
            None => {},
            Some(image) => {
                if !hidden {
                    let facet = make_asset_facet(icon_name, image.as_str());
                    let identifier: u16 = ask(hash, facet.as_str());
                    refs.push(LayerRef { part: PART_REGULAR, identifier });
                }
            },
        }
        i = i + 1;
    }
    refs
}

/// A group of an icon: the number of its name, and its layers.
pub struct GroupInfo {
    pub identifier: u16,
    pub refs: Vec<LayerRef>,
}

/// Groups as mathematical values.
pub open spec fn info_views(infos: Seq<GroupInfo>) -> Seq<(u16, Seq<LayerRef>)> {
    Seq::new(infos.len(), |i: int| (infos[i].identifier, infos[i].refs@))
}

/// Those of the first `n` groups that have layers.
pub open spec fn group_infos<H: Fn(&str) -> u16>(
    hash: H,
    icon_name: Seq<char>,
    names: Seq<Seq<char>>,
    groups: Seq<Group>,
    n: nat,
) -> Seq<(u16, Seq<LayerRef>)>
    decreases n,
{
    if n == 0 {
        Seq::empty()
    } else {
        let before = group_infos(hash, icon_name, names, groups, (n - 1) as nat);
        let refs = group_refs(hash, icon_name, groups[n - 1], groups[n - 1].layers@.len());
        if refs.len() == 0 {
            before
        } else {
            before.push((value_of(hash, names[n - 1]), refs))
        }
    }
}

/// The smaller of two lengths.
pub open spec fn shorter(a: nat, b: nat) -> nat {
    if a < b {
        a
    } else {
        b
    }
}

fn find_group_infos<H: Fn(&str) -> u16>(
    icon_name: &str,
    names: &Vec<String>,
    groups: &Vec<Group>,
    hash: &H,
) -> (infos: Vec<GroupInfo>)
    requires
        is_text_function(*hash),
    ensures
        info_views(infos@) == group_infos(
            *hash,
            icon_name@,
            texts(names@),
            groups@,
            shorter(names@.len(), groups@.len()),
        ),
{
    let mut infos: Vec<GroupInfo> = Vec::new();
    let mut i: usize = 0;
    assert(info_views(infos@) =~= Seq::empty());
    while i < names.len() && i < groups.len()
        invariant
            i <= names@.len(),
            i <= groups@.len(),
            is_text_function(*hash),
            info_views(infos@) == group_infos(
                *hash,
                icon_name@,
                texts(names@),
                groups@,
                i as nat,
            ),
        decreases names.len() - i,
    {
        let refs = find_group_refs(icon_name, &groups[i], hash);
        let name = names[i].as_str();
        assert(texts(names@)[i as int] == name@);
        if refs.len() > 0 {
            let identifier: u16 = ask(hash, name);
            let ghost before = infos@;
            infos.push(GroupInfo { identifier, refs });
            assert(info_views(infos@) =~= info_views(before).push((identifier, refs@)));
        }
        i = i + 1;
    }
    infos
}

/// The layers of an icon: its gradient, and above it its groups, from the back to
/// the front.
pub open spec fn stack_refs(gradient: u16, infos: Seq<(u16, Seq<LayerRef>)>) -> Seq<LayerRef> {
    seq![LayerRef { part: PART_ICON_GRADIENT, identifier: gradient }] + Seq::new(
        infos.len(),
        |i: int| LayerRef { part: PART_ICON_GROUP, identifier: infos[infos.len() - 1 - i].0 },
    )
}

/// An icon as a stack of layers, for one appearance.
pub open spec fn stack_rendition(
    t: Target,
    icon_name: Seq<char>,
    identifier: u16,
    appearance: u16,
    layers: Seq<LayerRef>,
) -> RenditionModel {
    let name = icon_name + ".iconstack"@;
    let stored = csi(
        CANVAS,
        CANVAS,
        100,
        be32(PIXELFMT_DATA),
        LAYOUT_ICONSTACK,
        name,
        layers_tlv(layers, 0, true) + opacity_tlv(ONE) + layered_type_tlv() + orientation_tlv(1),
        empty_data(),
        0,
        0,
        1,
    );
    RenditionModel {
        appearance,
        width: CANVAS,
        height: CANVAS,
        ..kept(
            t,
            name,
            identifier,
            PART_ICON_COMPOSER,
            LAYOUT_ICONSTACK,
            be32(PIXELFMT_DATA),
            stored,
        )
    }
}

/// A group of layers, for one appearance.
pub open spec fn group_rendition(
    t: Target,
    identifier: u16,
    appearance: u16,
    layers: Seq<LayerRef>,
) -> RenditionModel {
    let stored = csi(
        0,
        0,
        100,
        be32(PIXELFMT_DATA),
        LAYOUT_ICON_GROUP,
        "IconGroup"@,
        layers_tlv(layers, CANVAS, false) + opacity_tlv(ONE) + orientation_tlv(1),
        empty_data(),
        0,
        0,
        1,
    );
    RenditionModel {
        appearance,
        ..kept(
            t,
            "IconGroup"@,
            identifier,
            PART_ICON_GROUP,
            LAYOUT_ICON_GROUP,
            be32(PIXELFMT_DATA),
            stored,
        )
    }
}

/// A list with the first `n` groups, for one appearance.
pub open spec fn with_groups(
    t: Target,
    l: ListModel,
    appearance: u16,
    infos: Seq<(u16, Seq<LayerRef>)>,
    n: nat,
) -> ListModel
    decreases n,
{
    if n == 0 {
        l
    } else {
        plus_rendition(
            with_groups(t, l, appearance, infos, (n - 1) as nat),
            group_rendition(t, infos[n - 1].0, appearance, infos[n - 1].1),
        )
    }
}

/// A list with an icon as a stack of layers and its groups, for one appearance.
pub open spec fn with_stack(
    t: Target,
    l: ListModel,
    icon_name: Seq<char>,
    identifier: u16,
    appearance: u16,
    gradient: u16,
    infos: Seq<(u16, Seq<LayerRef>)>,
) -> ListModel {
    with_groups(
        t,
        plus_rendition(
            l,
            stack_rendition(t, icon_name, identifier, appearance, stack_refs(gradient, infos)),
        ),
        appearance,
        infos,
        infos.len(),
    )
}

/// A list with an icon as stacks of layers: the dark one on the second gradient,
/// the light and the tintable one on the first.
pub open spec fn with_stacks<H: Fn(&str) -> u16>(
    t: Target,
    hash: H,
    l: ListModel,
    icon_name: Seq<char>,
    names: Seq<Seq<char>>,
    groups: Seq<Group>,
    gradients: Seq<GradientModel>,
) -> ListModel {
    let identifier = value_of(hash, icon_name);
    let infos = group_infos(
        hash,
        icon_name,
        names,
        groups,
        shorter(names.len(), groups.len()),
    );
    let first = value_of(hash, gradients[0].name);
    let second = if gradients.len() > 1 {
        value_of(hash, gradients[1].name)
    } else {
        first
    };
    let dark = with_stack(t, l, icon_name, identifier, 1, second, infos);
    let light = with_stack(t, dark, icon_name, identifier, 8, first, infos);
    with_stack(t, light, icon_name, identifier, 10, first, infos)
}

fn add_stack(
    l: &mut IconList,
    icon_name: &str,
    identifier: u16,
    appearance: u16,
    gradient: u16,
    infos: &Vec<GroupInfo>,
    min_deploy: &str,
    platform: &str,
)
    ensures
        final(l)@ == with_stack(
            Target { min_deploy: min_deploy@, platform: platform@ },
            old(l)@,
            icon_name@,
            identifier,
            appearance,
            gradient,
            info_views(infos@),
        ),
{
    let ghost t = Target { min_deploy: min_deploy@, platform: platform@ };
    let ghost views = info_views(infos@);
    let n: usize = infos.len();
    let mut refs: Vec<LayerRef> = Vec::new();
    refs.push(LayerRef { part: PART_ICON_GRADIENT, identifier: gradient });
    let mut i: usize = 0;
    assert(refs@ =~= stack_refs(gradient, views).take(1));
    while i < n
        invariant
            i <= n == infos@.len(),
            views == info_views(infos@),
            refs@ == stack_refs(gradient, views).take(1 + i),
        decreases n - i,
    {
        let info = &infos[n - 1 - i];
        assert(views[n - 1 - i].0 == info.identifier);
        refs.push(LayerRef { part: PART_ICON_GROUP, identifier: info.identifier });
        i = i + 1;
        assert(refs@ =~= stack_refs(gradient, views).take(1 + i));
    }
    assert(refs@ =~= stack_refs(gradient, views));
    let mut name = icon_name.to_owned();
    put_str(&mut name, ".iconstack");
    let stored = build_iconstack_csi(name.as_str(), CANVAS, refs.as_slice());
    let mut r = make_kept(
        name.as_str(),
        identifier,
        PART_ICON_COMPOSER,
        LAYOUT_ICONSTACK,
        data_letters(),
        stored,
        min_deploy,
        platform,
    );
    r.appearance = appearance;
    r.width = CANVAS;
    r.height = CANVAS;
    l.push(r);
    let ghost start = l@;
    let mut k: usize = 0;
    while k < n
        invariant
            k <= n == infos@.len(),
            views == info_views(infos@),
            t == (Target { min_deploy: min_deploy@, platform: platform@ }),
            l@ == with_groups(t, start, appearance, views, k as nat),
        decreases n - k,
    {
        let info = &infos[k];
        assert(views[k as int] == (info.identifier, info.refs@));
        let stored = build_icongroup_csi("IconGroup", CANVAS, info.refs.as_slice());
        let mut r = make_kept(
            "IconGroup",
            info.identifier,
            PART_ICON_GROUP,
            LAYOUT_ICON_GROUP,
            data_letters(),
            stored,
            min_deploy,
            platform,
        );
        r.appearance = appearance;
        l.push(r);
        k = k + 1;
    }
}

/// Adds an icon as stacks of layers.
pub fn add_stacks<H: Fn(&str) -> u16>(
    l: &mut IconList,
    icon_name: &str,
    names: &Vec<String>,
    groups: &Vec<Group>,
    gradients: &Vec<GradientAsset>,
    min_deploy: &str,
    platform: &str,
    hash: &H,
)
    requires
        is_text_function(*hash),
        gradients@.len() > 0,
    ensures
        final(l)@ == with_stacks(
            Target { min_deploy: min_deploy@, platform: platform@ },
            *hash,
            old(l)@,
            icon_name@,
            texts(names@),
            groups@,
            gradient_views(gradients@),
        ),
{
    let identifier: u16 = ask(hash, icon_name);
    let infos = find_group_infos(icon_name, names, groups, hash);
    assert(gradient_views(gradients@)[0] == gradients@[0]@);
    let first: u16 = ask(hash, gradients[0].facet_name.as_str());
    let second: u16 = if gradients.len() > 1 {
        assert(gradient_views(gradients@)[1] == gradients@[1]@);
        ask(hash, gradients[1].facet_name.as_str())
    } else {
        first
    };
    add_stack(l, icon_name, identifier, 1, second, &infos, min_deploy, platform);
    add_stack(l, icon_name, identifier, 8, first, &infos, min_deploy, platform);
    add_stack(l, icon_name, identifier, 10, first, &infos, min_deploy, platform);
}

} // verus!
