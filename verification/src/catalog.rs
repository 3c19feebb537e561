//! Asset catalogs: the walk through a catalog's folders, which turns each set
//! into renditions and a facet.

use vstd::prelude::*;
use vstd::string::StrSliceExecFns;

use crate::bytes::be32;
use crate::car::{
    colorspace_for_pixel_format, colorspace_of_format, ELEMENT_PACKED, ELEMENT_UNIVERSAL,
    LAYOUT_COLOR, LAYOUT_ONE_PART_SCALE, LAYOUT_PDF, LAYOUT_RAW_DATA, PART_COLOR, PART_ICON,
    PART_REGULAR,
};
use crate::compress::{lzfse_stream, LZFSE_SLACK};
use crate::csi::{
    build_color_csi, build_data_csi, build_jpeg_csi, build_pdf_csi, build_svg_csi, color_csi,
    color_data, csi, data_tlv, jpeg_size, metrics_tlv, opacity_tlv, orientation_tlv, raw_data,
    slices_tlv, svg_data, ONE, PIXELFMT_DATA, PIXELFMT_JPEG, PIXELFMT_PDF, PIXELFMT_SVG,
};
use crate::device_icons::device_icon_set;
use crate::entries::{
    appearance_from_json, appearance_of, check_idiom, check_namespace, check_set_idiom,
    colorspace_id_for_name, colorspace_named, direction_from_json, direction_of, find_idiom,
    icon_dim2, icon_size_number, idiom_matches, idiom_of, image_kind, kind_of, number_or_one,
    parse_point_width, parse_rendering_intent, parse_scale, point_width, provides_namespace,
    rendering_intent, scale_of, set_idiom_matches, ImageKind,
};
use crate::facets::{with_facet, Facet, FacetTable};
use crate::files::{
    extension, extension_dot, file_name, file_name_of, item_at, join, joined, list_entries,
    listing, split_extension, stem, Drawing, Item,
};
use crate::json::{items_of, member, text_member, text_or, Json};
use crate::naming::{ask, is_text_function, value_of};
use crate::order::{sort_texts, sorted_texts, texts};
use crate::patterns::{captured, find_captures, group_texts, match_texts};
use crate::pixels::{best_format, bgra_to_best_format, load_image_as_bgra, loaded_image};
use crate::platform::{
    ga8_since, ios_platform, is_ios_platform, is_tv_platform, jpeg_since, min_ga8_version,
    min_jpeg_car_version, number_or_zero, parse_number, parse_version, parsed_number, reaches,
    tv_platform, version_of, version_reaches,
};
use crate::plist::{ios_primary_size, primary_size, IconImage};
use crate::rendition::{
    build_multisize_rendition, plain_rendition, sizes_rendition, MultisizeImageEntry, Rendition,
    RenditionModel,
};
use crate::svg::{parse_svg_dimensions, svg_size};
use crate::text::{put_str, same_text};

verus! {

/// Why a catalog cannot be read.
#[derive(Debug, Clone, Copy, PartialEq, Eq, Structural)]
pub enum CatalogError {
    /// There is no catalog.
    NotFound,
    /// A `Contents.json` holds no JSON text.
    BadJson,
    /// A file cannot be read.
    Unreadable,
    /// A file holds no image that can be decoded.
    BadImage,
    /// A document was not drawn in a size that it is needed in.
    NotDrawn,
    /// A file is too large.
    TooLarge,
}

/// What a catalog is compiled for.
pub struct Settings {
    pub platform: Seq<char>,
    pub min_deploy: Seq<char>,
    /// The icon set to compile.
    pub app_icon: Option<Seq<char>>,
    /// The languages to compile; all if there are none given.
    pub languages: Option<Seq<Seq<char>>>,
    /// The development region, which is always compiled.
    pub region: Option<Seq<char>>,
    /// Whether gray images are stored in color.
    pub force_bgra: bool,
    /// Whether JPEG images are stored in the archive.
    pub jpeg_in_car: bool,
    /// Whether documents are drawn.
    pub draws_svg: bool,
}

/// What was found in a catalog.
#[verifier::ext_equal]
pub struct Gathered {
    pub renditions: Seq<RenditionModel>,
    pub facets: Seq<(Seq<char>, Facet)>,
    /// The languages that images were found for, each once.
    pub locales: Seq<Seq<char>>,
    /// The JPEG images to be copied: the names of their sets, and where they are.
    pub loose_jpegs: Seq<(Seq<char>, Seq<char>)>,
}

/// What comes of reading a part of a catalog: what was found up to its end or to
/// the first error, and the sizes of the icons among it.
#[verifier::ext_equal]
pub struct Outcome {
    pub state: Gathered,
    pub points: Seq<u32>,
    pub error: Option<CatalogError>,
}

/// Reading went well.
pub open spec fn fine(state: Gathered) -> Outcome {
    Outcome { state, points: Seq::empty(), error: None }
}

/// Reading stopped at an error.
pub open spec fn failed(state: Gathered, error: CatalogError) -> Outcome {
    Outcome { state, points: Seq::empty(), error: Some(error) }
}

/// With one more rendition.
pub open spec fn plus(g: Gathered, r: RenditionModel) -> Gathered {
    Gathered { renditions: g.renditions.push(r), ..g }
}

/// With a name for renditions.
pub open spec fn named(
    g: Gathered,
    name: Seq<char>,
    element: u16,
    part: Option<u16>,
    identifier: u16,
) -> Gathered {
    Gathered { facets: with_facet(g.facets, name, Facet { element, part, identifier }), ..g }
}

/// With a language, unless it is the empty one or known.
pub open spec fn with_locale(g: Gathered, locale: Seq<char>) -> Gathered {
    if locale.len() == 0 || g.locales.contains(locale) {
        g
    } else {
        Gathered { locales: g.locales.push(locale), ..g }
    }
}

/// Whether a language is compiled.
pub open spec fn locale_wanted(s: Settings, locale: Seq<char>) -> bool {
    match s.languages {
        None => true,
        Some(languages) => s.region == Some(locale) || languages.contains(locale),
    }
}

/// Whether an image of an image set is compiled.
pub open spec fn image_wanted(s: Settings, info: Json) -> bool {
    let locale = text_or(info, "locale"@, ""@);
    &&& set_idiom_matches(info, s.platform)
    &&& s.platform == "macosx"@ ==> scale_of(info) <= 2
    &&& locale.len() > 0 ==> locale_wanted(s, locale)
}

/// What a file holds.
pub open spec fn file_data(item: Item) -> Option<Seq<u8>> {
    match item {
        Item::File(file) => match file.data {
            Some(data) => Some(data@),
            None => None,
        },
        Item::Folder(_) => None,
    }
}

/// What a file holds as a JSON value.
pub open spec fn file_json(item: Item) -> Option<Json> {
    match item {
        Item::File(file) => file.json,
        Item::Folder(_) => None,
    }
}

/// The pixels of a drawing of a given size.
pub open spec fn drawing_from(
    drawings: Seq<Drawing>,
    width: u32,
    height: u32,
    scale: u32,
    from: int,
) -> Option<Seq<u8>>
    decreases drawings.len() - from,
{
    if from < 0 || from >= drawings.len() {
        None
    } else if drawings[from].width == width && drawings[from].height == height
        && drawings[from].scale == scale {
        Some(drawings[from].pixels@)
    } else {
        drawing_from(drawings, width, height, scale, from + 1)
    }
}

/// A document drawn in a given size.
pub open spec fn drawn(item: Item, width: u32, height: u32, scale: u32) -> Option<Seq<u8>> {
    match item {
        Item::File(file) => if width * scale <= u32::MAX && height * scale <= u32::MAX {
            drawing_from(file.drawings@, width, height, scale, 0)
        } else {
            None
        },
        Item::Folder(_) => None,
    }
}

/// An image file as it is stored: its pixels, width, height and pixel format.
pub open spec fn loaded_file(item: Item, path: Seq<char>, force_bgra: bool) -> Result<
    (Seq<u8>, u32, u32, Seq<u8>),
    CatalogError,
> {
    match file_data(item) {
        None => Err(CatalogError::Unreadable),
        Some(data) => match loaded_image(path, data, force_bgra) {
            None => Err(CatalogError::BadImage),
            Some(image) => Ok(image),
        },
    }
}

/// The rendition of an image.
pub open spec fn image_rendition(
    s: Settings,
    name: Seq<char>,
    identifier: u16,
    part: u16,
    scale: u32,
    image: (Seq<u8>, u32, u32, Seq<u8>),
) -> RenditionModel {
    RenditionModel {
        name,
        identifier,
        part,
        scale: scale as u16,
        width: image.1,
        height: image.2,
        pixel_data: image.0,
        pixel_format: image.3,
        colorspace_id: colorspace_of_format(image.3),
        min_deploy: s.min_deploy,
        platform: s.platform,
        ..plain_rendition()
    }
}

/// The rendition of something that is stored as it is.
pub open spec fn kept_rendition(
    s: Settings,
    name: Seq<char>,
    identifier: u16,
    part: u16,
    layout: u16,
    format: Seq<u8>,
    stored: Seq<u8>,
) -> RenditionModel {
    RenditionModel {
        name,
        identifier,
        part,
        layout,
        pixel_format: format,
        csi_override: Some(stored),
        min_deploy: s.min_deploy,
        platform: s.platform,
        ..plain_rendition()
    }
}

/// A PDF page as it is stored.
pub open spec fn pdf_stored(filename: Seq<char>, data: Seq<u8>) -> Seq<u8> {
    csi(0, 0, 0, be32(PIXELFMT_PDF), LAYOUT_PDF, filename, data_tlv(), raw_data(0, data), 4, 0, 1)
}

/// An SVG document as it is stored.
pub open spec fn svg_stored(filename: Seq<char>, data: Seq<u8>) -> Seq<u8> {
    let stream = lzfse_stream(data, data.len() + LZFSE_SLACK as nat);
    csi(
        0,
        0,
        0,
        be32(PIXELFMT_SVG),
        LAYOUT_PDF,
        filename,
        data_tlv(),
        svg_data(data, stream),
        4,
        0,
        1,
    )
}

/// A JPEG image as it is stored.
pub open spec fn jpeg_stored(filename: Seq<char>, data: Seq<u8>) -> Seq<u8> {
    let width = jpeg_size(data).0 as u32;
    let height = jpeg_size(data).1 as u32;
    csi(
        0,
        0,
        100,
        be32(PIXELFMT_JPEG),
        LAYOUT_ONE_PART_SCALE,
        filename,
        slices_tlv(width, height) + metrics_tlv(width, height) + opacity_tlv(ONE)
            + orientation_tlv(1),
        raw_data(0, data),
        16,
        0,
        1,
    )
}

/// A data set as it is stored.
pub open spec fn data_stored(data: Seq<u8>) -> Seq<u8> {
    csi(
        0,
        0,
        0,
        be32(PIXELFMT_DATA),
        LAYOUT_RAW_DATA,
        "CoreStructuredImage"@,
        data_tlv(),
        raw_data(0, data),
        0,
        1,
        1,
    )
}

/// A catalog to be compiled.
pub struct AssetCatalog {
    /// Where the catalog is.
    pub path: String,
    pub platform: String,
    pub min_deploy: String,
    pub app_icon: Option<String>,
    pub include_languages: Option<Vec<String>>,
    pub development_region: Option<String>,
    /// Whether the platform draws SVG documents.
    pub draws_svg: bool,
    locales_used: Vec<String>,
    force_bgra: bool,
    /// JPEG images that are copied rather than stored: the names of their sets,
    /// and where they are.
    pub loose_jpegs: Vec<(String, String)>,
    jpeg_in_car: bool,
}

/// The text of an optional string.
pub open spec fn optional_text(text: Option<String>) -> Option<Seq<char>> {
    match text {
        Some(t) => Some(t@),
        None => None,
    }
}

/// The texts of an optional list.
pub open spec fn optional_texts(list: Option<Vec<String>>) -> Option<Seq<Seq<char>>> {
    match list {
        Some(names) => Some(texts(names@)),
        None => None,
    }
}

/// The texts of pairs of strings.
pub open spec fn text_pairs(pairs: Seq<(String, String)>) -> Seq<(Seq<char>, Seq<char>)> {
    Seq::new(pairs.len(), |i: int| (pairs[i].0@, pairs[i].1@))
}

/// The renditions of a list.
pub open spec fn models(renditions: Seq<Rendition>) -> Seq<RenditionModel> {
    Seq::new(renditions.len(), |i: int| renditions[i]@)
}

/// What is being found in a catalog.
pub struct Gathering {
    pub renditions: Vec<Rendition>,
    pub facets: FacetTable,
    pub locales: Vec<String>,
    pub loose_jpegs: Vec<(String, String)>,
}

impl View for Gathering {
    type V = Gathered;

    open spec fn view(&self) -> Gathered {
        Gathered {
            renditions: models(self.renditions@),
            facets: self.facets@,
            locales: texts(self.locales@),
            loose_jpegs: text_pairs(self.loose_jpegs@),
        }
    }
}

/// Whether a result and a state are an outcome.
pub open spec fn ends_as(
    result: Result<(), CatalogError>,
    state: Gathered,
    outcome: Outcome,
) -> bool {
    &&& state == outcome.state
    &&& match result {
        Ok(()) => outcome.error is None,
        Err(e) => outcome.error == Some(e),
    }
}

impl Gathering {
    pub(crate) fn push(&mut self, r: Rendition)
        ensures
            final(self)@ == plus(old(self)@, r@),
            final(self).facets == old(self).facets,
    {
        self.renditions.push(r);
        assert(models(self.renditions@) =~= models(old(self).renditions@).push(r@));
    }

    pub(crate) fn name(&mut self, name: &str, element: u16, part: Option<u16>, identifier: u16)
        requires
            old(self).facets.wf(),
        ensures
            final(self)@ == named(old(self)@, name@, element, part, identifier),
            final(self).facets.wf(),
    {
        self.facets.insert(name, Facet { element, part, identifier });
    }

    fn use_locale(&mut self, locale: &str)
        ensures
            final(self)@ == with_locale(old(self)@, locale@),
            final(self).facets == old(self).facets,
    {
        if locale.unicode_len() == 0 {
            return;
        }
        let mut i: usize = 0;
        while i < self.locales.len()
            invariant
                i <= self.locales@.len(),
                *self == *old(self),
                forall|j: int| 0 <= j < i ==> (#[trigger] self.locales@[j])@ != locale@,
            decreases self.locales.len() - i,
        {
            if same_text(self.locales[i].as_str(), locale) {
                assert(texts(self.locales@)[i as int] == locale@);
                return;
            }
            i = i + 1;
        }
        proof {
            assert forall|j: int| 0 <= j < texts(self.locales@).len() implies #[trigger] texts(
                self.locales@,
            )[j] != locale@ by {
                assert(self.locales@[j]@ != locale@);
            }
        }
        self.locales.push(locale.to_owned());
        assert(texts(self.locales@) =~= texts(old(self).locales@).push(locale@));
    }

    fn copy_jpeg(&mut self, name: &str, path: String)
        ensures
            final(self)@ == (Gathered {
                loose_jpegs: old(self)@.loose_jpegs.push((name@, path@)),
                ..old(self)@
            }),
            final(self).facets == old(self).facets,
    {
        self.loose_jpegs.push((name.to_owned(), path));
        assert(text_pairs(self.loose_jpegs@) =~= text_pairs(old(self).loose_jpegs@).push(
            (name@, path@),
        ));
    }
}

/// What a file holds.
fn read_data(item: &Item) -> (data: Option<&Vec<u8>>)
    ensures
        match data {
            Some(bytes) => file_data(*item) == Some(bytes@),
            None => file_data(*item) is None,
        },
{
    match item {
        Item::File(file) => match &file.data {
            Some(data) => Some(data),
            None => None,
        },
        Item::Folder(_) => None,
    }
}

/// What a file holds as a JSON value.
pub fn read_json(item: &Item) -> (json: Option<&Json>)
    ensures
        match json {
            Some(value) => file_json(*item) == Some(*value),
            None => file_json(*item) is None,
        },
{
    match item {
        Item::File(file) => match &file.json {
            Some(json) => Some(json),
            None => None,
        },
        Item::Folder(_) => None,
    }
}

/// A document drawn in a given size.
fn find_drawing(item: &Item, width: u32, height: u32, scale: u32) -> (pixels: Option<&Vec<u8>>)
    ensures
        match pixels {
            Some(bytes) => drawn(*item, width, height, scale) == Some(bytes@),
            None => drawn(*item, width, height, scale) is None,
        },
{
    match item {
        Item::File(file) => {
            if width.checked_mul(scale).is_none() || height.checked_mul(scale).is_none() {
                return None;
            }
            let mut i: usize = 0;
            while i < file.drawings.len()
                invariant
                    i <= file.drawings@.len(),
                    drawn(*item, width, height, scale) == drawing_from(
                        file.drawings@,
                        width,
                        height,
                        scale,
                        i as int,
                    ),
                decreases file.drawings.len() - i,
            {
                let drawing = &file.drawings[i];
                if drawing.width == width && drawing.height == height && drawing.scale == scale {
                    return Some(&drawing.pixels);
                }
                i = i + 1;
            }
            None
        },
        Item::Folder(_) => None,
    }
}

/// Loads an image file.
fn load_file(item: &Item, path: &str, force_bgra: bool) -> (image: Result<
    (Vec<u8>, u32, u32, [u8; 4]),
    CatalogError,
>)
    ensures
        match image {
            Ok((pixels, width, height, format)) => loaded_file(*item, path@, force_bgra) == Ok::<
                (Seq<u8>, u32, u32, Seq<u8>),
                CatalogError,
            >((pixels@, width, height, format@)),
            Err(e) => loaded_file(*item, path@, force_bgra) == Err::<
                (Seq<u8>, u32, u32, Seq<u8>),
                CatalogError,
            >(e),
        },
{
    match read_data(item) {
        None => Err(CatalogError::Unreadable),
        Some(data) => match load_image_as_bgra(path, data.as_slice(), force_bgra) {
            None => Err(CatalogError::BadImage),
            Some(image) => Ok(image),
        },
    }
}

/// The number of a language; the empty one has none.
pub open spec fn locale_number<H: Fn(&str) -> u16>(hash: H, locale: Seq<char>) -> u16 {
    if locale.len() == 0 {
        0
    } else {
        value_of(hash, locale)
    }
}

/// The rendition of a drawn document.
pub open spec fn drawn_rendition(
    s: Settings,
    name: Seq<char>,
    identifier: u16,
    part: u16,
    item: Item,
    width: u32,
    height: u32,
    scale: u32,
) -> Option<RenditionModel> {
    match drawn(item, width, height, scale) {
        Some(pixels) => {
            let (data, format) = best_format(pixels, s.force_bgra);
            let image = (data, (width * scale) as u32, (height * scale) as u32, format);
            Some(
                RenditionModel {
                    is_svg_rasterization: true,
                    ..image_rendition(s, name, identifier, part, scale, image)
                },
            )
        },
        None => None,
    }
}

/// What all renditions of an image of an image set have in common.
pub struct ImageTraits {
    pub idiom: u16,
    pub appearance: u16,
    pub direction: u16,
    pub intent: i32,
    pub locale: Seq<char>,
    pub locale_id: u16,
}

/// What the renditions of an image have in common.
pub open spec fn traits_of<H: Fn(&str) -> u16>(
    s: Settings,
    hash: H,
    info: Json,
    intent: i32,
) -> ImageTraits {
    let locale = text_or(info, "locale"@, ""@);
    ImageTraits {
        idiom: idiom_of(info, s.platform),
        appearance: appearance_of(info),
        direction: direction_of(info),
        intent,
        locale,
        locale_id: locale_number(hash, locale),
    }
}

/// A rendition of an image with given traits.
pub open spec fn with_traits(r: RenditionModel, t: ImageTraits) -> RenditionModel {
    RenditionModel {
        idiom: t.idiom,
        appearance: t.appearance,
        direction: t.direction,
        template_rendering_intent: t.intent,
        locale: t.locale,
        locale_id: t.locale_id,
        ..r
    }
}

/// With the drawings of a document in both scales.
pub open spec fn with_drawings(
    g: Gathered,
    first: Option<RenditionModel>,
    second: Option<RenditionModel>,
) -> Outcome {
    match first {
        None => failed(g, CatalogError::NotDrawn),
        Some(a) => match second {
            None => failed(plus(g, a), CatalogError::NotDrawn),
            Some(b) => fine(plus(plus(g, a), b)),
        },
    }
}

/// A drawing of an image set.
pub open spec fn set_drawing(
    s: Settings,
    filename: Seq<char>,
    identifier: u16,
    item: Item,
    size: (u32, u32),
    scale: u32,
    t: ImageTraits,
) -> Option<RenditionModel> {
    match drawn_rendition(s, filename, identifier, PART_REGULAR, item, size.0, size.1, scale) {
        Some(r) => Some(with_traits(r, t)),
        None => None,
    }
}

/// A document of an image set: kept as it is, and drawn in both scales if it has a
/// size and documents are drawn.
pub open spec fn set_document(
    s: Settings,
    g: Gathered,
    filename: Seq<char>,
    identifier: u16,
    item: Item,
    data: Seq<u8>,
    t: ImageTraits,
) -> Outcome {
    if data.len() + LZFSE_SLACK > usize::MAX {
        failed(g, CatalogError::TooLarge)
    } else {
        let kept = RenditionModel {
            idiom: t.idiom,
            appearance: t.appearance,
            direction: t.direction,
            ..kept_rendition(
                s,
                filename,
                identifier,
                PART_REGULAR,
                LAYOUT_PDF,
                be32(PIXELFMT_SVG),
                svg_stored(filename, data),
            )
        };
        let size = svg_size(data);
        if s.draws_svg && size.0 > 0 && size.1 > 0 {
            with_drawings(
                plus(g, kept),
                set_drawing(s, filename, identifier, item, size, 1, t),
                set_drawing(s, filename, identifier, item, size, 2, t),
            )
        } else {
            fine(plus(g, kept))
        }
    }
}

/// A file of an image set, by its kind.
pub open spec fn set_file(
    s: Settings,
    g: Gathered,
    name: Seq<char>,
    path: Seq<char>,
    filename: Seq<char>,
    identifier: u16,
    scale: u32,
    item: Item,
    t: ImageTraits,
) -> Outcome {
    match kind_of(filename) {
        ImageKind::Pdf => match file_data(item) {
            None => failed(g, CatalogError::Unreadable),
            Some(data) => fine(
                plus(
                    g,
                    RenditionModel {
                        idiom: t.idiom,
                        appearance: t.appearance,
                        direction: t.direction,
                        ..kept_rendition(
                            s,
                            filename,
                            identifier,
                            PART_REGULAR,
                            LAYOUT_PDF,
                            be32(PIXELFMT_PDF),
                            pdf_stored(filename, data),
                        )
                    },
                ),
            ),
        },
        ImageKind::Jpeg => if !s.jpeg_in_car {
            fine(Gathered { loose_jpegs: g.loose_jpegs.push((name, path)), ..g })
        } else {
            match file_data(item) {
                None => failed(g, CatalogError::Unreadable),
                Some(data) => fine(
                    plus(
                        g,
                        with_traits(
                            RenditionModel {
                                scale: scale as u16,
                                colorspace_id: 0,
                                ..kept_rendition(
                                    s,
                                    filename,
                                    identifier,
                                    PART_REGULAR,
                                    LAYOUT_ONE_PART_SCALE,
                                    be32(PIXELFMT_JPEG),
                                    jpeg_stored(filename, data),
                                )
                            },
                            t,
                        ),
                    ),
                ),
            }
        },
        ImageKind::Svg => match file_data(item) {
            None => failed(g, CatalogError::Unreadable),
            Some(data) => set_document(s, g, filename, identifier, item, data, t),
        },
        ImageKind::Bitmap => match loaded_file(item, filename, s.force_bgra) {
            Err(e) => failed(g, e),
            Ok(image) => fine(
                plus(
                    g,
                    with_traits(
                        image_rendition(s, filename, identifier, PART_REGULAR, scale, image),
                        t,
                    ),
                ),
            ),
        },
    }
}

/// One image of an image set: skipped without a file, or if it is not wanted.
pub open spec fn set_image<H: Fn(&str) -> u16>(
    s: Settings,
    hash: H,
    g: Gathered,
    info: Json,
    set: Item,
    dir: Seq<char>,
    name: Seq<char>,
    identifier: u16,
    intent: i32,
) -> Outcome {
    match text_member(info, "filename"@) {
        None => fine(g),
        Some(filename) => match item_at(set, filename) {
            None => fine(g),
            Some(item) => if !image_wanted(s, info) {
                fine(g)
            } else {
                let t = traits_of(s, hash, info, intent);
                set_file(
                    s,
                    with_locale(g, t.locale),
                    name,
                    joined(dir, filename),
                    filename,
                    identifier,
                    scale_of(info),
                    item,
                    t,
                )
            },
        },
    }
}

/// The first `n` images of an image set.
pub open spec fn set_images<H: Fn(&str) -> u16>(
    s: Settings,
    hash: H,
    g: Gathered,
    infos: Seq<Json>,
    n: nat,
    set: Item,
    dir: Seq<char>,
    name: Seq<char>,
    identifier: u16,
    intent: i32,
) -> Outcome
    decreases n,
{
    if n == 0 {
        fine(g)
    } else {
        let before = set_images(
            s,
            hash,
            g,
            infos,
            (n - 1) as nat,
            set,
            dir,
            name,
            identifier,
            intent,
        );
        if before.error is Some {
            before
        } else {
            set_image(
                s,
                hash,
                before.state,
                infos[n - 1],
                set,
                dir,
                name,
                identifier,
                intent,
            )
        }
    }
}

/// An image set whose images are read: it gets its name if there are any.
pub open spec fn image_set_end(
    g: Gathered,
    facet: Seq<char>,
    identifier: u16,
    out: Outcome,
) -> Outcome {
    if out.error is None && g.renditions.len() < out.state.renditions.len() {
        fine(named(out.state, facet, ELEMENT_UNIVERSAL, Some(PART_REGULAR), identifier))
    } else {
        out
    }
}

/// Nothing is read behind an error.
proof fn lemma_set_images_stop<H: Fn(&str) -> u16>(
    s: Settings,
    hash: H,
    g: Gathered,
    infos: Seq<Json>,
    m: nat,
    n: nat,
    set: Item,
    dir: Seq<char>,
    name: Seq<char>,
    identifier: u16,
    intent: i32,
)
    requires
        m <= n,
        set_images(s, hash, g, infos, m, set, dir, name, identifier, intent).error is Some,
    ensures
        set_images(s, hash, g, infos, n, set, dir, name, identifier, intent) == set_images(
            s,
            hash,
            g,
            infos,
            m,
            set,
            dir,
            name,
            identifier,
            intent,
        ),
    decreases n,
{
    if m < n {
        lemma_set_images_stop(
            s,
            hash,
            g,
            infos,
            m,
            (n - 1) as nat,
            set,
            dir,
            name,
            identifier,
            intent,
        );
    }
}

/// An image set: its images, under the set's name if there are any.
pub open spec fn image_set<H: Fn(&str) -> u16>(
    s: Settings,
    hash: H,
    g: Gathered,
    set: Item,
    dir: Seq<char>,
    name: Seq<char>,
    namespace: Seq<char>,
) -> Outcome {
    let facet = namespace + name;
    let identifier = value_of(hash, facet);
    match item_at(set, "Contents.json"@) {
        None => fine(g),
        Some(file) => match file_json(file) {
            None => failed(g, CatalogError::BadJson),
            Some(contents) => {
                let infos = items_of(contents, "images"@);
                let out = set_images(
                    s,
                    hash,
                    g,
                    infos,
                    infos.len(),
                    set,
                    dir,
                    name,
                    identifier,
                    rendering_intent(contents),
                );
                image_set_end(g, facet, identifier, out)
            },
        },
    }
}

/// Four letters as a pixel format.
fn format_letters(letters: u32) -> (format: [u8; 4])
    ensures
        format@ == be32(letters),
{
    let format: [u8; 4] = [
        (letters / 16777216) as u8,
        (letters / 65536 % 256) as u8,
        (letters / 256 % 256) as u8,
        (letters % 256) as u8,
    ];
    assert(format@ =~= be32(letters));
    format
}

/// Two texts, one behind the other.
fn concat(a: &str, b: &str) -> (out: String)
    ensures
        out@ == a@ + b@,
{
    let mut out = a.to_owned();
    put_str(&mut out, b);
    out
}

impl AssetCatalog {
    /// What the catalog is compiled for.
    pub closed spec fn settings(&self) -> Settings {
        Settings {
            platform: self.platform@,
            min_deploy: self.min_deploy@,
            app_icon: optional_text(self.app_icon),
            languages: optional_texts(self.include_languages),
            region: optional_text(self.development_region),
            force_bgra: self.force_bgra,
            jpeg_in_car: self.jpeg_in_car,
            draws_svg: self.draws_svg,
        }
    }

    /// The languages that images were found for.
    pub closed spec fn locales(&self) -> Seq<Seq<char>> {
        texts(self.locales_used@)
    }

    /// The JPEG images that are copied: the names of their sets, and where they are.
    pub closed spec fn copies(&self) -> Seq<(Seq<char>, Seq<char>)> {
        text_pairs(self.loose_jpegs@)
    }

    /// A catalog, yet to be read.
    pub fn new(
        path: String,
        platform: String,
        min_deploy: String,
        app_icon: Option<String>,
        include_languages: Option<Vec<String>>,
        development_region: Option<String>,
        draws_svg: bool,
    ) -> (catalog: Self)
        ensures
            catalog.settings() == (Settings {
                platform: platform@,
                min_deploy: min_deploy@,
                app_icon: optional_text(app_icon),
                languages: optional_texts(include_languages),
                region: optional_text(development_region),
                force_bgra: !version_reaches(version_of(min_deploy@), ga8_since(platform@)),
                jpeg_in_car: version_reaches(version_of(min_deploy@), jpeg_since(platform@)),
                draws_svg,
            }),
            catalog.locales().len() == 0,
            catalog.copies().len() == 0,
            catalog.place() == path@,
    {
        let deploy = parse_version(min_deploy.as_str());
        let force_bgra = !reaches(deploy, min_ga8_version(platform.as_str()));
        let jpeg_in_car = reaches(deploy, min_jpeg_car_version(platform.as_str()));
        AssetCatalog {
            path,
            platform,
            min_deploy,
            app_icon,
            include_languages,
            development_region,
            draws_svg,
            locales_used: Vec::new(),
            force_bgra,
            loose_jpegs: Vec::new(),
            jpeg_in_car,
        }
    }

    fn should_include_locale(&self, locale: &str) -> (answer: bool)
        ensures
            answer == locale_wanted(self.settings(), locale@),
    {
        match &self.include_languages {
            None => true,
            Some(filter) => {
                match &self.development_region {
                    Some(region) => {
                        if same_text(locale, region.as_str()) {
                            return true;
                        }
                    },
                    None => {},
                }
                let mut i: usize = 0;
                while i < filter.len()
                    invariant
                        i <= filter@.len(),
                        self.settings().languages == Some(texts(filter@)),
                        forall|j: int| 0 <= j < i ==> (#[trigger] filter@[j])@ != locale@,
                    decreases filter.len() - i,
                {
                    if same_text(filter[i].as_str(), locale) {
                        assert(texts(filter@)[i as int] == locale@);
                        return true;
                    }
                    i = i + 1;
                }
                proof {
                    assert forall|j: int| 0 <= j < texts(filter@).len() implies #[trigger] texts(
                        filter@,
                    )[j] != locale@ by {
                        assert(filter@[j]@ != locale@);
                    }
                }
                false
            },
        }
    }

    fn wants_image(&self, info: &Json) -> (answer: bool)
        ensures
            answer == image_wanted(self.settings(), *info),
    {
        if !check_set_idiom(info, self.platform.as_str()) {
            return false;
        }
        if same_text(self.platform.as_str(), "macosx") && parse_scale(info) > 2 {
            return false;
        }
        let locale = info.get_text_or("locale", "");
        locale.unicode_len() == 0 || self.should_include_locale(locale)
    }

    /// The rendition of an image.
    fn make_image(
        &self,
        name: &str,
        identifier: u16,
        part: u16,
        scale: u32,
        pixels: Vec<u8>,
        width: u32,
        height: u32,
        format: [u8; 4],
    ) -> (r: Rendition)
        ensures
            r@ == image_rendition(
                self.settings(),
                name@,
                identifier,
                part,
                scale,
                (pixels@, width, height, format@),
            ),
    {
        let mut r = Rendition::default();
        r.name = name.to_owned();
        r.identifier = identifier;
        r.part = part;
        r.scale = scale as u16;
        r.width = width;
        r.height = height;
        r.pixel_data = pixels;
        r.pixel_format = format;
        r.colorspace_id = colorspace_for_pixel_format(&format);
        r.min_deploy = self.min_deploy.as_str().to_owned();
        r.platform = self.platform.as_str().to_owned();
        r
    }

    /// The rendition of something that is stored as it is.
    fn make_kept(
        &self,
        name: &str,
        identifier: u16,
        part: u16,
        layout: u16,
        format: u32,
        stored: Vec<u8>,
    ) -> (r: Rendition)
        ensures
            r@ == kept_rendition(
                self.settings(),
                name@,
                identifier,
                part,
                layout,
                be32(format),
                stored@,
            ),
    {
        let mut r = Rendition::default();
        r.name = name.to_owned();
        r.identifier = identifier;
        r.part = part;
        r.layout = layout;
        r.pixel_format = format_letters(format);
        r.csi_override = Some(stored);
        r.min_deploy = self.min_deploy.as_str().to_owned();
        r.platform = self.platform.as_str().to_owned();
        r
    }

    /// The rendition of a drawn document.
    fn make_drawn(
        &self,
        name: &str,
        identifier: u16,
        part: u16,
        item: &Item,
        width: u32,
        height: u32,
        scale: u32,
    ) -> (r: Option<Rendition>)
        ensures
            match r {
                Some(r) => drawn_rendition(
                    self.settings(),
                    name@,
                    identifier,
                    part,
                    *item,
                    width,
                    height,
                    scale,
                ) == Some(r@),
                None => drawn_rendition(
                    self.settings(),
                    name@,
                    identifier,
                    part,
                    *item,
                    width,
                    height,
                    scale,
                ) is None,
            },
    {
        match find_drawing(item, width, height, scale) {
            Some(pixels) => {
                let copy = crate::bytes::copy_of(pixels.as_slice());
                let (data, w, h, format) = bgra_to_best_format(
                    copy,
                    width * scale,
                    height * scale,
                    self.force_bgra,
                );
                let mut r = self.make_image(name, identifier, part, scale, data, w, h, format);
                r.is_svg_rasterization = true;
                Some(r)
            },
            None => None,
        }
    }

    /// A file of an image set, by its kind.
    fn add_set_file(
        &self,
        g: &mut Gathering,
        name: &str,
        dir: &str,
        filename: &str,
        identifier: u16,
        scale: u32,
        item: &Item,
        info: &Json,
        intent: i32,
        locale_id: u16,
        Ghost(t): Ghost<ImageTraits>,
    ) -> (result: Result<(), CatalogError>)
        requires
            old(g).facets.wf(),
            t.idiom == idiom_of(*info, self.settings().platform),
            t.appearance == appearance_of(*info),
            t.direction == direction_of(*info),
            t.intent == intent,
            t.locale == text_or(*info, "locale"@, ""@),
            t.locale_id == locale_id,
        ensures
            final(g).facets.wf(),
            ends_as(
                result,
                final(g)@,
                set_file(
                    self.settings(),
                    old(g)@,
                    name@,
                    joined(dir@, filename@),
                    filename@,
                    identifier,
                    scale,
                    *item,
                    t,
                ),
            ),
    {
        let idiom: u16 = find_idiom(info, self.platform.as_str());
        let appearance: u16 = appearance_from_json(info);
        let direction: u16 = direction_from_json(info);
        match image_kind(filename) {
            ImageKind::Pdf => match read_data(item) {
                None => Err(CatalogError::Unreadable),
                Some(data) => {
                    let stored = build_pdf_csi(filename, data.as_slice());
                    let mut r = self.make_kept(
                        filename,
                        identifier,
                        PART_REGULAR,
                        LAYOUT_PDF,
                        PIXELFMT_PDF,
                        stored,
                    );
                    r.idiom = idiom;
                    r.appearance = appearance;
                    r.direction = direction;
                    g.push(r);
                    Ok(())
                },
            },
            ImageKind::Jpeg => {
                if !self.jpeg_in_car {
                    g.copy_jpeg(name, join(dir, filename));
                    return Ok(());
                }
                match read_data(item) {
                    None => Err(CatalogError::Unreadable),
                    Some(data) => {
                        let stored = build_jpeg_csi(filename, data.as_slice());
                        let mut r = self.make_kept(
                            filename,
                            identifier,
                            PART_REGULAR,
                            LAYOUT_ONE_PART_SCALE,
                            PIXELFMT_JPEG,
                            stored,
                        );
                        r.scale = scale as u16;
                        r.colorspace_id = 0;
                        set_traits(&mut r, info, idiom, intent, locale_id, Ghost(t));
                        g.push(r);
                        Ok(())
                    },
                }
            },
            ImageKind::Svg => match read_data(item) {
                None => Err(CatalogError::Unreadable),
                Some(data) => self.add_set_document(
                    g,
                    filename,
                    identifier,
                    item,
                    data,
                    info,
                    intent,
                    locale_id,
                    Ghost(t),
                ),
            },
            ImageKind::Bitmap => match load_file(item, filename, self.force_bgra) {
                Err(e) => Err(e),
                Ok((pixels, width, height, format)) => {
                    let mut r = self.make_image(
                        filename,
                        identifier,
                        PART_REGULAR,
                        scale,
                        pixels,
                        width,
                        height,
                        format,
                    );
                    set_traits(&mut r, info, idiom, intent, locale_id, Ghost(t));
                    g.push(r);
                    Ok(())
                },
            },
        }
    }

    /// A document of an image set.
    fn add_set_document(
        &self,
        g: &mut Gathering,
        filename: &str,
        identifier: u16,
        item: &Item,
        data: &Vec<u8>,
        info: &Json,
        intent: i32,
        locale_id: u16,
        Ghost(t): Ghost<ImageTraits>,
    ) -> (result: Result<(), CatalogError>)
        requires
            old(g).facets.wf(),
            t.idiom == idiom_of(*info, self.settings().platform),
            t.appearance == appearance_of(*info),
            t.direction == direction_of(*info),
            t.intent == intent,
            t.locale == text_or(*info, "locale"@, ""@),
            t.locale_id == locale_id,
        ensures
            final(g).facets.wf(),
            ends_as(
                result,
                final(g)@,
                set_document(self.settings(), old(g)@, filename@, identifier, *item, data@, t),
            ),
    {
        let idiom: u16 = find_idiom(info, self.platform.as_str());
        let appearance: u16 = appearance_from_json(info);
        let direction: u16 = direction_from_json(info);
        if data.len() > usize::MAX - LZFSE_SLACK {
            return Err(CatalogError::TooLarge);
        }
        let stored = build_svg_csi(filename, data.as_slice());
        let mut r = self.make_kept(
            filename,
            identifier,
            PART_REGULAR,
            LAYOUT_PDF,
            PIXELFMT_SVG,
            stored,
        );
        r.idiom = idiom;
        r.appearance = appearance;
        r.direction = direction;
        g.push(r);
        if self.draws_svg {
            let (width, height) = parse_svg_dimensions(data.as_slice());
            if width > 0 && height > 0 {
                match self.make_drawn(filename, identifier, PART_REGULAR, item, width, height, 1) {
                    None => {
                        return Err(CatalogError::NotDrawn);
                    },
                    Some(mut r) => {
                        set_traits(&mut r, info, idiom, intent, locale_id, Ghost(t));
                        g.push(r);
                    },
                }
                match self.make_drawn(filename, identifier, PART_REGULAR, item, width, height, 2) {
                    None => {
                        return Err(CatalogError::NotDrawn);
                    },
                    Some(mut r) => {
                        set_traits(&mut r, info, idiom, intent, locale_id, Ghost(t));
                        g.push(r);
                    },
                }
            }
        }
        Ok(())
    }

    /// One image of an image set.
    fn add_set_image<H: Fn(&str) -> u16>(
        &self,
        g: &mut Gathering,
        info: &Json,
        set: &Item,
        dir: &str,
        name: &str,
        identifier: u16,
        intent: i32,
        hash: &H,
    ) -> (result: Result<(), CatalogError>)
        requires
            old(g).facets.wf(),
            is_text_function(*hash),
        ensures
            final(g).facets.wf(),
            ends_as(
                result,
                final(g)@,
                set_image(
                    self.settings(),
                    *hash,
                    old(g)@,
                    *info,
                    *set,
                    dir@,
                    name@,
                    identifier,
                    intent,
                ),
            ),
    {
        match info.get_text("filename") {
            None => Ok(()),
            Some(filename) => match set.find(filename) {
                None => Ok(()),
                Some(item) => {
                    if !self.wants_image(info) {
                        return Ok(());
                    }
                    let locale = info.get_text_or("locale", "");
                    g.use_locale(locale);
                    let locale_id: u16 = if locale.unicode_len() == 0 {
                        0
                    } else {
                        ask(hash, locale)
                    };
                    let scale = parse_scale(info);
                    let ghost t = traits_of(self.settings(), *hash, *info, intent);
                    self.add_set_file(
                        g,
                        name,
                        dir,
                        filename,
                        identifier,
                        scale,
                        item,
                        info,
                        intent,
                        locale_id,
                        Ghost(t),
                    )
                },
            },
        }
    }

    /// An image set.
    fn parse_imageset<H: Fn(&str) -> u16>(
        &self,
        g: &mut Gathering,
        set: &Item,
        dir: &str,
        name: &str,
        namespace: &str,
        hash: &H,
    ) -> (result: Result<(), CatalogError>)
        requires
            old(g).facets.wf(),
            is_text_function(*hash),
        ensures
            final(g).facets.wf(),
            ends_as(
                result,
                final(g)@,
                image_set(self.settings(), *hash, old(g)@, *set, dir@, name@, namespace@),
            ),
    {
        let facet = concat(namespace, name);
        let identifier: u16 = ask(hash, facet.as_str());
        let contents = match set.find("Contents.json") {
            None => {
                return Ok(());
            },
            Some(file) => match read_json(file) {
                None => {
                    return Err(CatalogError::BadJson);
                },
                Some(contents) => contents,
            },
        };
        let intent: i32 = parse_rendering_intent(contents);
        let count: usize = g.renditions.len();
        match contents.get_list("images") {
            None => {},
            Some(infos) => {
                let ghost start = g@;
                let mut i: usize = 0;
                while i < infos.len()
                    invariant
                        i <= infos@.len(),
                        g.facets.wf(),
                        is_text_function(*hash),
                        fine(g@) == set_images(
                            self.settings(),
                            *hash,
                            start,
                            infos@,
                            i as nat,
                            *set,
                            dir@,
                            name@,
                            identifier,
                            intent,
                        ),
                        image_set(self.settings(), *hash, start, *set, dir@, name@, namespace@)
                            == image_set_end(
                            start,
                            facet@,
                            identifier,
                            set_images(
                                self.settings(),
                                *hash,
                                start,
                                infos@,
                                infos@.len(),
                                *set,
                                dir@,
                                name@,
                                identifier,
                                intent,
                            ),
                        ),
                        start == old(g)@,
                    decreases infos.len() - i,
                {
                    match self.add_set_image(
                        g,
                        &infos[i],
                        set,
                        dir,
                        name,
                        identifier,
                        intent,
                        hash,
                    ) {
                        Ok(()) => {},
                        Err(e) => {
                            proof {
                                lemma_set_images_stop(
                                    self.settings(),
                                    *hash,
                                    start,
                                    infos@,
                                    (i + 1) as nat,
                                    infos@.len(),
                                    *set,
                                    dir@,
                                    name@,
                                    identifier,
                                    intent,
                                );
                            }
                            return Err(e);
                        },
                    }
                    i = i + 1;
                }
            },
        }
        if count < g.renditions.len() {
            g.name(facet.as_str(), ELEMENT_UNIVERSAL, Some(PART_REGULAR), identifier);
        }
        Ok(())
    }
}

/// Sets what the renditions of an image have in common.
fn set_traits(
    r: &mut Rendition,
    info: &Json,
    idiom: u16,
    intent: i32,
    locale_id: u16,
    Ghost(t): Ghost<ImageTraits>,
)
    requires
        t.idiom == idiom,
        t.appearance == appearance_of(*info),
        t.direction == direction_of(*info),
        t.intent == intent,
        t.locale == text_or(*info, "locale"@, ""@),
        t.locale_id == locale_id,
    ensures
        final(r)@ == with_traits(old(r)@, t),
{
    r.idiom = idiom;
    r.appearance = appearance_from_json(info);
    r.direction = direction_from_json(info);
    r.template_rendering_intent = intent;
    r.locale = info.get_text_or("locale", "").to_owned();
    r.locale_id = locale_id;
}

/// A drawing of an icon.
pub open spec fn icon_drawing(
    s: Settings,
    filename: Seq<char>,
    identifier: u16,
    item: Item,
    size: (u32, u32),
    scale: u32,
    point_w: u32,
) -> Option<RenditionModel> {
    match drawn_rendition(s, filename, identifier, PART_ICON, item, size.0, size.1, scale) {
        Some(r) => Some(
            RenditionModel {
                dim2: icon_size_number(point_w),
                template_rendering_intent: 0,
                ..r
            },
        ),
        None => None,
    }
}

/// The size to draw an icon in: that of its document, or its size in points.
pub open spec fn icon_drawing_size(data: Seq<u8>, point_w: u32) -> (u32, u32) {
    let size = svg_size(data);
    if size.0 == 0 {
        (point_w, point_w)
    } else {
        size
    }
}

/// With the sizes of icons, if all went well.
pub open spec fn with_points(out: Outcome, points: Seq<u32>) -> Outcome {
    if out.error is None {
        Outcome { points, ..out }
    } else {
        out
    }
}

/// A document of an icon set: kept as it is, and drawn in both scales if the icon
/// has a size and documents are drawn.
pub open spec fn icon_document(
    s: Settings,
    g: Gathered,
    filename: Seq<char>,
    identifier: u16,
    item: Item,
    data: Seq<u8>,
    point_w: u32,
) -> Outcome {
    if data.len() + LZFSE_SLACK > usize::MAX {
        failed(g, CatalogError::TooLarge)
    } else {
        let kept = RenditionModel {
            dim2: icon_size_number(point_w),
            ..kept_rendition(
                s,
                filename,
                identifier,
                PART_ICON,
                LAYOUT_PDF,
                be32(PIXELFMT_SVG),
                svg_stored(filename, data),
            )
        };
        if s.draws_svg && point_w > 0 {
            let size = icon_drawing_size(data, point_w);
            with_points(
                with_drawings(
                    plus(g, kept),
                    icon_drawing(s, filename, identifier, item, size, 1, point_w),
                    icon_drawing(s, filename, identifier, item, size, 2, point_w),
                ),
                seq![point_w, point_w],
            )
        } else {
            fine(plus(g, kept))
        }
    }
}

/// An image of an icon set.
pub open spec fn icon_bitmap(
    s: Settings,
    g: Gathered,
    filename: Seq<char>,
    identifier: u16,
    item: Item,
    scale: u32,
    point_w: u32,
) -> Outcome {
    match loaded_file(item, filename, s.force_bgra) {
        Err(e) => failed(g, e),
        Ok(image) => with_points(
            fine(
                plus(
                    g,
                    RenditionModel {
                        dim2: icon_size_number(point_w),
                        template_rendering_intent: 0,
                        ..image_rendition(s, filename, identifier, PART_ICON, scale, image)
                    },
                ),
            ),
            seq![point_w],
        ),
    }
}

/// The file of an icon, by its kind.
pub open spec fn icon_content(
    s: Settings,
    g: Gathered,
    filename: Seq<char>,
    identifier: u16,
    item: Item,
    scale: u32,
    point_w: u32,
) -> Outcome {
    if kind_of(filename) == ImageKind::Svg {
        match file_data(item) {
            None => failed(g, CatalogError::Unreadable),
            Some(data) => icon_document(s, g, filename, identifier, item, data, point_w),
        }
    } else {
        icon_bitmap(s, g, filename, identifier, item, scale, point_w)
    }
}

/// One icon of an app icon set: skipped without a file, or if it is for another
/// platform.
pub open spec fn app_icon(
    s: Settings,
    g: Gathered,
    info: Json,
    set: Item,
    identifier: u16,
) -> Outcome {
    match text_member(info, "filename"@) {
        None => fine(g),
        Some(filename) => match item_at(set, filename) {
            None => fine(g),
            Some(item) => {
                let platform = text_or(info, "platform"@, ""@);
                let point_w = number_or_zero(point_width(info));
                if platform.len() > 0 && platform != s.platform {
                    fine(g)
                } else {
                    icon_content(s, g, filename, identifier, item, scale_of(info), point_w)
                }
            },
        },
    }
}

/// Reading went on: sizes add up.
pub open spec fn after(before: Outcome, out: Outcome) -> Outcome {
    Outcome { points: before.points + out.points, ..out }
}

/// The first `n` icons of an app icon set.
pub open spec fn app_icons(
    s: Settings,
    g: Gathered,
    infos: Seq<Json>,
    n: nat,
    set: Item,
    identifier: u16,
) -> Outcome
    decreases n,
{
    if n == 0 {
        fine(g)
    } else {
        let before = app_icons(s, g, infos, (n - 1) as nat, set, identifier);
        if before.error is Some {
            before
        } else {
            after(before, app_icon(s, before.state, infos[n - 1], set, identifier))
        }
    }
}

proof fn lemma_app_icons_stop(
    s: Settings,
    g: Gathered,
    infos: Seq<Json>,
    m: nat,
    n: nat,
    set: Item,
    identifier: u16,
)
    requires
        m <= n,
        app_icons(s, g, infos, m, set, identifier).error is Some,
    ensures
        app_icons(s, g, infos, n, set, identifier) == app_icons(s, g, infos, m, set, identifier),
    decreases n,
{
    if m < n {
        lemma_app_icons_stop(s, g, infos, m, (n - 1) as nat, set, identifier);
    }
}

/// The sizes of icons, each once, in the order in which they first come.
pub open spec fn size_list(points: Seq<u32>) -> Seq<MultisizeImageEntry>
    decreases points.len(),
{
    if points.len() == 0 {
        Seq::empty()
    } else if points.drop_last().contains(points.last()) {
        size_list(points.drop_last())
    } else {
        size_list(points.drop_last()).push(
            MultisizeImageEntry {
                width: points.last(),
                height: points.last(),
                index: icon_size_number(points.last()) as u32,
            },
        )
    }
}

/// The sizes of icons, each once.
pub fn list_sizes(points: &Vec<u32>) -> (entries: Vec<MultisizeImageEntry>)
    ensures
        entries@ == size_list(points@),
{
    let mut entries: Vec<MultisizeImageEntry> = Vec::new();
    let mut i: usize = 0;
    assert(points@.take(0) =~= Seq::empty());
    while i < points.len()
        invariant
            i <= points@.len(),
            entries@ == size_list(points@.take(i as int)),
        decreases points.len() - i,
    {
        let point_w: u32 = points[i];
        let ghost so_far = points@.take(i as int);
        assert(points@.take(i + 1).drop_last() =~= so_far);
        let mut seen = false;
        let mut j: usize = 0;
        while j < i
            invariant
                j <= i < points@.len(),
                so_far == points@.take(i as int),
                seen == so_far.take(j as int).contains(point_w),
            decreases i - j,
        {
            proof {
                let next = so_far.take(j + 1);
                assert(next =~= so_far.take(j as int).push(points@[j as int]));
                if so_far.take(j as int).contains(point_w) {
                    let k = so_far.take(j as int).index_of(point_w);
                    assert(next[k] == point_w);
                }
                if points@[j as int] == point_w {
                    assert(next[j as int] == point_w);
                }
                if next.contains(point_w) && points@[j as int] != point_w {
                    let k = next.index_of(point_w);
                    assert(so_far.take(j as int)[k] == point_w);
                }
            }
            if points[j] == point_w {
                seen = true;
            }
            j = j + 1;
        }
        assert(so_far.take(i as int) =~= so_far);
        if !seen {
            let dim2: u16 = icon_dim2(point_w);
            entries.push(
                MultisizeImageEntry { width: point_w, height: point_w, index: dim2 as u32 },
            );
        }
        i = i + 1;
    }
    assert(points@.take(i as int) =~= points@);
    entries
}

/// No size of an icon is listed twice.
pub proof fn sizes_are_listed_once(points: Seq<u32>)
    ensures
        forall|i: int, j: int|
            0 <= i < j < size_list(points).len() ==> (#[trigger] size_list(points)[i]).width != (
            #[trigger] size_list(points)[j]).width,
        forall|i: int|
            0 <= i < size_list(points).len() ==> points.contains(
                (#[trigger] size_list(points)[i]).width,
            ),
    decreases points.len(),
{
    if points.len() > 0 {
        let before = points.drop_last();
        sizes_are_listed_once(before);
        assert forall|i: int| 0 <= i < size_list(points).len() implies points.contains(
            (#[trigger] size_list(points)[i]).width,
        ) by {
            if i < size_list(before).len() {
                assert(size_list(before)[i] == size_list(points)[i]);
                let k = before.index_of(size_list(before)[i].width);
                assert(points[k] == size_list(before)[i].width);
            } else {
                assert(points[points.len() - 1] == size_list(points)[i].width);
            }
        }
        assert forall|i: int, j: int| 0 <= i < j < size_list(points).len() implies (
        #[trigger] size_list(points)[i]).width != (#[trigger] size_list(points)[j]).width by {
            assert(size_list(before)[i] == size_list(points)[i]);
            if j < size_list(before).len() {
                assert(size_list(before)[j] == size_list(points)[j]);
            } else {
                assert(before.contains(size_list(before)[i].width));
            }
        }
    }
}

/// Icons that are read: they get a list of their sizes, and their set its name, if
/// there are any.
pub open spec fn icons_end(
    out: Outcome,
    name: Seq<char>,
    facet: Seq<char>,
    identifier: u16,
) -> Outcome {
    if out.error is None && out.points.len() > 0 {
        fine(
            named(
                plus(out.state, sizes_rendition(name, identifier, size_list(out.points))),
                facet,
                ELEMENT_UNIVERSAL,
                Some(PART_ICON),
                identifier,
            ),
        )
    } else {
        out
    }
}

/// An app icon set: only the one that was asked for is read.
pub open spec fn app_icon_set<H: Fn(&str) -> u16>(
    s: Settings,
    hash: H,
    g: Gathered,
    set: Item,
    name: Seq<char>,
) -> Outcome {
    if s.app_icon != Some(name) {
        fine(g)
    } else {
        match item_at(set, "Contents.json"@) {
            None => fine(g),
            Some(file) => match file_json(file) {
                None => failed(g, CatalogError::BadJson),
                Some(contents) => {
                    let infos = items_of(contents, "images"@);
                    let identifier = value_of(hash, name);
                    if ios_platform(s.platform) {
                        device_icon_set(s, g, infos, set, name, identifier)
                    } else {
                        icons_end(
                            app_icons(s, g, infos, infos.len(), set, identifier),
                            name,
                            name,
                            identifier,
                        )
                    }
                },
            },
        }
    }
}

/// The size and the scale of an icon by the match for its file name.
pub open spec fn icon_match(groups: Seq<Option<Seq<char>>>) -> (u32, u32) {
    let point_w = if groups.len() > 1 && groups[1] is Some {
        number_or_zero(parsed_number(groups[1]->0))
    } else {
        0
    };
    let scale = if groups.len() > 3 && groups[3] is Some {
        number_or_one(parsed_number(groups[3]->0))
    } else {
        1
    };
    (point_w, scale)
}

/// The size and the scale of an icon by the match for its file name.
pub fn read_icon_match(groups: &Vec<Option<String>>) -> (out: (u32, u32))
    ensures
        out == icon_match(group_texts(groups@)),
{
    let mut point_w: u32 = 0;
    if groups.len() > 1 {
        match &groups[1] {
            Some(text) => {
                let text = text.as_str();
                let len: usize = text.unicode_len();
                assert(text@.subrange(0, len as int) =~= text@);
                match parse_number(text, 0, len) {
                    Some(n) => {
                        point_w = n;
                    },
                    None => {},
                }
            },
            None => {},
        }
    }
    let mut scale: u32 = 1;
    if groups.len() > 3 {
        match &groups[3] {
            Some(text) => {
                let text = text.as_str();
                let len: usize = text.unicode_len();
                assert(text@.subrange(0, len as int) =~= text@);
                match parse_number(text, 0, len) {
                    Some(n) => {
                        scale = n;
                    },
                    None => {},
                }
            },
            None => {},
        }
    }
    (point_w, scale)
}

/// One entry of an icon set, given the match for its file name: folders and files
/// with other names are skipped, and on the Mac scales above two.
pub open spec fn icon_entry(
    s: Settings,
    g: Gathered,
    filename: Seq<char>,
    item: Item,
    identifier: u16,
    found: Option<Seq<Option<Seq<char>>>>,
) -> Outcome {
    match found {
        None => fine(g),
        Some(groups) => {
            let (point_w, scale) = icon_match(groups);
            if item is Folder || s.platform == "macosx"@ && scale > 2 {
                fine(g)
            } else {
                icon_bitmap(s, g, filename, identifier, item, scale, point_w)
            }
        },
    }
}

/// The match for the name of a file of an icon set.
pub open spec fn icon_file_match(filename: Seq<char>) -> Option<Seq<Option<Seq<char>>>> {
    captured(r"^icon_(\d+)x(\d+)(?:@(\d+)x)?\.png$"@, filename)
}

/// The first `n` entries of an icon set.
pub open spec fn icon_entries(
    s: Settings,
    g: Gathered,
    entries: Seq<(String, Item)>,
    n: nat,
    identifier: u16,
) -> Outcome
    decreases n,
{
    if n == 0 {
        fine(g)
    } else {
        let before = icon_entries(s, g, entries, (n - 1) as nat, identifier);
        if before.error is Some {
            before
        } else {
            let (filename, item) = entries[listing(entries)[n - 1] as int];
            after(
                before,
                icon_entry(
                    s,
                    before.state,
                    filename@,
                    item,
                    identifier,
                    icon_file_match(filename@),
                ),
            )
        }
    }
}

proof fn lemma_icon_entries_stop(
    s: Settings,
    g: Gathered,
    entries: Seq<(String, Item)>,
    m: nat,
    n: nat,
    identifier: u16,
)
    requires
        m <= n,
        icon_entries(s, g, entries, m, identifier).error is Some,
    ensures
        icon_entries(s, g, entries, n, identifier) == icon_entries(s, g, entries, m, identifier),
    decreases n,
{
    if m < n {
        lemma_icon_entries_stop(s, g, entries, m, (n - 1) as nat, identifier);
    }
}

/// An icon set: its files, by their names.
pub open spec fn icon_set<H: Fn(&str) -> u16>(
    s: Settings,
    hash: H,
    g: Gathered,
    set: Item,
    name: Seq<char>,
    namespace: Seq<char>,
) -> Outcome {
    let facet = namespace + name;
    match set {
        Item::File(_) => fine(g),
        Item::Folder(entries) => icons_end(
            icon_entries(s, g, entries@, entries@.len(), value_of(hash, facet)),
            name,
            facet,
            value_of(hash, facet),
        ),
    }
}

impl AssetCatalog {
    /// A document of an icon set.
    fn add_icon_document(
        &self,
        g: &mut Gathering,
        points: &mut Vec<u32>,
        filename: &str,
        identifier: u16,
        item: &Item,
        data: &Vec<u8>,
        point_w: u32,
    ) -> (result: Result<(), CatalogError>)
        requires
            old(g).facets.wf(),
        ensures
            final(g).facets.wf(),
            ({
                let out = icon_document(
                    self.settings(),
                    old(g)@,
                    filename@,
                    identifier,
                    *item,
                    data@,
                    point_w,
                );
                ends_as(result, final(g)@, out) && (result is Ok ==> final(points)@ == old(points)@
                    + out.points)
            }),
    {
        if data.len() > usize::MAX - LZFSE_SLACK {
            return Err(CatalogError::TooLarge);
        }
        let dim2: u16 = icon_dim2(point_w);
        let stored = build_svg_csi(filename, data.as_slice());
        let mut r = self.make_kept(
            filename,
            identifier,
            PART_ICON,
            LAYOUT_PDF,
            PIXELFMT_SVG,
            stored,
        );
        r.dim2 = dim2;
        g.push(r);
        if self.draws_svg && point_w > 0 {
            let (mut width, mut height) = parse_svg_dimensions(data.as_slice());
            if width == 0 {
                width = point_w;
                height = point_w;
            }
            match self.make_drawn(filename, identifier, PART_ICON, item, width, height, 1) {
                None => {
                    return Err(CatalogError::NotDrawn);
                },
                Some(mut r) => {
                    r.dim2 = dim2;
                    r.template_rendering_intent = 0;
                    g.push(r);
                },
            }
            match self.make_drawn(filename, identifier, PART_ICON, item, width, height, 2) {
                None => {
                    return Err(CatalogError::NotDrawn);
                },
                Some(mut r) => {
                    r.dim2 = dim2;
                    r.template_rendering_intent = 0;
                    g.push(r);
                },
            }
            points.push(point_w);
            points.push(point_w);
            assert(points@ =~= old(points)@ + seq![point_w, point_w]);
            return Ok(());
        }
        assert(points@ =~= old(points)@ + Seq::<u32>::empty());
        Ok(())
    }

    /// An image of an icon set.
    fn add_icon_bitmap(
        &self,
        g: &mut Gathering,
        points: &mut Vec<u32>,
        filename: &str,
        identifier: u16,
        item: &Item,
        scale: u32,
        point_w: u32,
    ) -> (result: Result<(), CatalogError>)
        requires
            old(g).facets.wf(),
        ensures
            final(g).facets.wf(),
            ({
                let out = icon_bitmap(
                    self.settings(),
                    old(g)@,
                    filename@,
                    identifier,
                    *item,
                    scale,
                    point_w,
                );
                ends_as(result, final(g)@, out) && (result is Ok ==> final(points)@ == old(points)@
                    + out.points)
            }),
    {
        match load_file(item, filename, self.force_bgra) {
            Err(e) => Err(e),
            Ok((pixels, width, height, format)) => {
                let mut r = self.make_image(
                    filename,
                    identifier,
                    PART_ICON,
                    scale,
                    pixels,
                    width,
                    height,
                    format,
                );
                r.dim2 = icon_dim2(point_w);
                r.template_rendering_intent = 0;
                g.push(r);
                points.push(point_w);
                assert(points@ =~= old(points)@ + seq![point_w]);
                Ok(())
            },
        }
    }

    /// The file of an icon, by its kind.
    pub(crate) fn add_icon_content(
        &self,
        g: &mut Gathering,
        points: &mut Vec<u32>,
        filename: &str,
        identifier: u16,
        item: &Item,
        scale: u32,
        point_w: u32,
    ) -> (result: Result<(), CatalogError>)
        requires
            old(g).facets.wf(),
        ensures
            final(g).facets.wf(),
            ({
                let out = icon_content(
                    self.settings(),
                    old(g)@,
                    filename@,
                    identifier,
                    *item,
                    scale,
                    point_w,
                );
                ends_as(result, final(g)@, out) && (result is Ok ==> final(points)@ == old(points)@
                    + out.points)
            }),
    {
        if image_kind(filename) == ImageKind::Svg {
            match read_data(item) {
                None => Err(CatalogError::Unreadable),
                Some(data) => self.add_icon_document(
                    g,
                    points,
                    filename,
                    identifier,
                    item,
                    data,
                    point_w,
                ),
            }
        } else {
            self.add_icon_bitmap(g, points, filename, identifier, item, scale, point_w)
        }
    }

    /// One icon of an app icon set.
    fn add_app_icon(
        &self,
        g: &mut Gathering,
        points: &mut Vec<u32>,
        info: &Json,
        set: &Item,
        identifier: u16,
    ) -> (result: Result<(), CatalogError>)
        requires
            old(g).facets.wf(),
        ensures
            final(g).facets.wf(),
            ({
                let out = app_icon(self.settings(), old(g)@, *info, *set, identifier);
                ends_as(result, final(g)@, out) && (result is Ok ==> final(points)@ == old(points)@
                    + out.points)
            }),
    {
        assert(points@ =~= old(points)@ + Seq::<u32>::empty());
        match info.get_text("filename") {
            None => Ok(()),
            Some(filename) => match set.find(filename) {
                None => Ok(()),
                Some(item) => {
                    let platform = info.get_text_or("platform", "");
                    if platform.unicode_len() > 0 && !same_text(platform, self.platform.as_str()) {
                        return Ok(());
                    }
                    let scale = parse_scale(info);
                    let point_w: u32 = match parse_point_width(info) {
                        Some(n) => n,
                        None => 0,
                    };
                    self.add_icon_content(
                        g,
                        points,
                        filename,
                        identifier,
                        item,
                        scale,
                        point_w,
                    )
                },
            },
        }
    }

    /// The list of sizes and the name of icons, if there are any.
    fn finish_icons(
        &self,
        g: &mut Gathering,
        points: &Vec<u32>,
        name: &str,
        facet: &str,
        identifier: u16,
    )
        requires
            old(g).facets.wf(),
        ensures
            final(g).facets.wf(),
            final(g)@ == icons_end(
                Outcome { state: old(g)@, points: points@, error: None },
                name@,
                facet@,
                identifier,
            ).state,
    {
        if points.len() > 0 {
            let entries = list_sizes(points);
            g.push(build_multisize_rendition(name, identifier, entries.as_slice()));
            g.name(facet, ELEMENT_UNIVERSAL, Some(PART_ICON), identifier);
        }
    }

    /// An app icon set.
    fn parse_appiconset<H: Fn(&str) -> u16>(
        &self,
        g: &mut Gathering,
        set: &Item,
        name: &str,
        hash: &H,
    ) -> (result: Result<(), CatalogError>)
        requires
            old(g).facets.wf(),
            is_text_function(*hash),
        ensures
            final(g).facets.wf(),
            ends_as(
                result,
                final(g)@,
                app_icon_set(self.settings(), *hash, old(g)@, *set, name@),
            ),
    {
        match &self.app_icon {
            None => {
                return Ok(());
            },
            Some(app_icon) => {
                if !same_text(name, app_icon.as_str()) {
                    return Ok(());
                }
            },
        }
        let identifier: u16 = ask(hash, name);
        let contents = match set.find("Contents.json") {
            None => {
                return Ok(());
            },
            Some(file) => match read_json(file) {
                None => {
                    return Err(CatalogError::BadJson);
                },
                Some(contents) => contents,
            },
        };
        if is_ios_platform(self.platform.as_str()) {
            let none: Vec<Json> = Vec::new();
            let infos = match contents.get_list("images") {
                Some(infos) => infos,
                None => &none,
            };
            assert(infos@ =~= items_of(*contents, "images"@));
            return self.read_device_icons(g, infos, set, name, identifier);
        }
        let mut points: Vec<u32> = Vec::new();
        match contents.get_list("images") {
            None => {},
            Some(infos) => {
                let ghost start = g@;
                let mut i: usize = 0;
                assert(points@ =~= Seq::empty());
                while i < infos.len()
                    invariant
                        i <= infos@.len(),
                        g.facets.wf(),
                        (Outcome { state: g@, points: points@, error: None }) == app_icons(
                            self.settings(),
                            start,
                            infos@,
                            i as nat,
                            *set,
                            identifier,
                        ),
                        app_icon_set(self.settings(), *hash, start, *set, name@) == icons_end(
                            app_icons(
                                self.settings(),
                                start,
                                infos@,
                                infos@.len(),
                                *set,
                                identifier,
                            ),
                            name@,
                            name@,
                            identifier,
                        ),
                        start == old(g)@,
                    decreases infos.len() - i,
                {
                    match self.add_app_icon(g, &mut points, &infos[i], set, identifier) {
                        Ok(()) => {},
                        Err(e) => {
                            proof {
                                lemma_app_icons_stop(
                                    self.settings(),
                                    start,
                                    infos@,
                                    (i + 1) as nat,
                                    infos@.len(),
                                    *set,
                                    identifier,
                                );
                            }
                            return Err(e);
                        },
                    }
                    i = i + 1;
                }
            },
        }
        self.finish_icons(g, &points, name, name, identifier);
        Ok(())
    }

    /// One entry of an icon set, given the match for its file name.
    fn add_icon_entry(
        &self,
        g: &mut Gathering,
        points: &mut Vec<u32>,
        filename: &str,
        item: &Item,
        identifier: u16,
        found: Option<Vec<Option<String>>>,
    ) -> (result: Result<(), CatalogError>)
        requires
            old(g).facets.wf(),
        ensures
            final(g).facets.wf(),
            ({
                let out = icon_entry(
                    self.settings(),
                    old(g)@,
                    filename@,
                    *item,
                    identifier,
                    match_texts(found),
                );
                ends_as(result, final(g)@, out) && (result is Ok ==> final(points)@ == old(points)@
                    + out.points)
            }),
    {
        assert(points@ =~= old(points)@ + Seq::<u32>::empty());
        match &found {
            None => Ok(()),
            Some(groups) => {
                let (point_w, scale) = read_icon_match(groups);
                match item {
                    Item::Folder(_) => {
                        return Ok(());
                    },
                    Item::File(_) => {},
                }
                if same_text(self.platform.as_str(), "macosx") && scale > 2 {
                    return Ok(());
                }
                self.add_icon_bitmap(g, points, filename, identifier, item, scale, point_w)
            },
        }
    }

    /// An icon set.
    fn parse_iconset<H: Fn(&str) -> u16>(
        &self,
        g: &mut Gathering,
        set: &Item,
        name: &str,
        namespace: &str,
        hash: &H,
    ) -> (result: Result<(), CatalogError>)
        requires
            old(g).facets.wf(),
            is_text_function(*hash),
        ensures
            final(g).facets.wf(),
            ends_as(
                result,
                final(g)@,
                icon_set(self.settings(), *hash, old(g)@, *set, name@, namespace@),
            ),
    {
        let facet = concat(namespace, name);
        let identifier: u16 = ask(hash, facet.as_str());
        let mut points: Vec<u32> = Vec::new();
        match set {
            Item::File(_) => {
                return Ok(());
            },
            Item::Folder(entries) => {
                let order = list_entries(entries);
                let ghost start = g@;
                let mut i: usize = 0;
                assert(points@ =~= Seq::empty());
                while i < order.len()
                    invariant
                        i <= order@.len(),
                        order@ == listing(entries@),
                        crate::order::is_permutation(order@, entries@.len()),
                        g.facets.wf(),
                        (Outcome { state: g@, points: points@, error: None }) == icon_entries(
                            self.settings(),
                            start,
                            entries@,
                            i as nat,
                            identifier,
                        ),
                        icon_set(self.settings(), *hash, start, *set, name@, namespace@)
                            == icons_end(
                            icon_entries(
                                self.settings(),
                                start,
                                entries@,
                                entries@.len(),
                                identifier,
                            ),
                            name@,
                            facet@,
                            identifier,
                        ),
                        start == old(g)@,
                    decreases order.len() - i,
                {
                    let at: usize = order[i];
                    let filename = entries[at].0.as_str();
                    let found = find_captures(r"^icon_(\d+)x(\d+)(?:@(\d+)x)?\.png$", filename);
                    match self.add_icon_entry(
                        g,
                        &mut points,
                        filename,
                        &entries[at].1,
                        identifier,
                        found,
                    ) {
                        Ok(()) => {},
                        Err(e) => {
                            proof {
                                lemma_icon_entries_stop(
                                    self.settings(),
                                    start,
                                    entries@,
                                    (i + 1) as nat,
                                    entries@.len(),
                                    identifier,
                                );
                            }
                            return Err(e);
                        },
                    }
                    i = i + 1;
                }
            },
        }
        self.finish_icons(g, &points, name, facet.as_str(), identifier);
        Ok(())
    }
}

/// What an object holds under a key, or nothing.
pub open spec fn member_or_null(value: Json, key: Seq<char>) -> Json {
    match member(value, key) {
        Some(found) => found,
        None => Json::Null,
    }
}

/// One color of a color set; skipped without components.  `component` reads the
/// components.
pub open spec fn set_color<C: Fn(&str) -> u64>(
    s: Settings,
    component: C,
    g: Gathered,
    entry: Json,
    name: Seq<char>,
    identifier: u16,
) -> Gathered {
    let color = member_or_null(entry, "color"@);
    let components = member_or_null(color, "components"@);
    if components is Null {
        g
    } else {
        let stored = color_csi(
            LAYOUT_COLOR,
            name,
            color_data(
                colorspace_named(text_or(color, "color-space"@, "srgb"@)) & 0xff,
                seq![
                    value_of(component, text_or(components, "red"@, "0"@)),
                    value_of(component, text_or(components, "green"@, "0"@)),
                    value_of(component, text_or(components, "blue"@, "0"@)),
                    value_of(component, text_or(components, "alpha"@, "1"@)),
                ],
            ),
        );
        plus(
            g,
            RenditionModel {
                appearance: appearance_of(entry),
                colorspace_id: 0,
                ..kept_rendition(s, name, identifier, PART_COLOR, LAYOUT_COLOR, be32(0), stored)
            },
        )
    }
}

/// The first `n` colors of a color set.
pub open spec fn set_colors<C: Fn(&str) -> u64>(
    s: Settings,
    component: C,
    g: Gathered,
    colors: Seq<Json>,
    n: nat,
    name: Seq<char>,
    identifier: u16,
) -> Gathered
    decreases n,
{
    if n == 0 {
        g
    } else {
        set_color(
            s,
            component,
            set_colors(s, component, g, colors, (n - 1) as nat, name, identifier),
            colors[n - 1],
            name,
            identifier,
        )
    }
}

/// A color set: its colors, under the set's name if there are any.
pub open spec fn color_set<H: Fn(&str) -> u16, C: Fn(&str) -> u64>(
    s: Settings,
    hash: H,
    component: C,
    g: Gathered,
    set: Item,
    name: Seq<char>,
    namespace: Seq<char>,
) -> Outcome {
    let facet = namespace + name;
    let identifier = value_of(hash, facet);
    match item_at(set, "Contents.json"@) {
        None => fine(g),
        Some(file) => match file_json(file) {
            None => failed(g, CatalogError::BadJson),
            Some(contents) => {
                let colors = items_of(contents, "colors"@);
                let out = set_colors(s, component, g, colors, colors.len(), name, identifier);
                if g.renditions.len() < out.renditions.len() {
                    fine(named(out, facet, ELEMENT_UNIVERSAL, Some(PART_COLOR), identifier))
                } else {
                    fine(out)
                }
            },
        },
    }
}

/// One file of a data set; skipped without a file.
pub open spec fn set_datum(
    s: Settings,
    g: Gathered,
    entry: Json,
    set: Item,
    identifier: u16,
) -> Outcome {
    match text_member(entry, "filename"@) {
        None => fine(g),
        Some(filename) => match item_at(set, filename) {
            None => fine(g),
            Some(item) => match file_data(item) {
                None => failed(g, CatalogError::Unreadable),
                Some(data) => fine(
                    plus(
                        g,
                        kept_rendition(
                            s,
                            "CoreStructuredImage"@,
                            identifier,
                            PART_REGULAR,
                            LAYOUT_RAW_DATA,
                            be32(PIXELFMT_DATA),
                            data_stored(data),
                        ),
                    ),
                ),
            },
        },
    }
}

/// The first `n` files of a data set.
pub open spec fn set_data(
    s: Settings,
    g: Gathered,
    list: Seq<Json>,
    n: nat,
    set: Item,
    identifier: u16,
) -> Outcome
    decreases n,
{
    if n == 0 {
        fine(g)
    } else {
        let before = set_data(s, g, list, (n - 1) as nat, set, identifier);
        if before.error is Some {
            before
        } else {
            set_datum(s, before.state, list[n - 1], set, identifier)
        }
    }
}

proof fn lemma_set_data_stop(
    s: Settings,
    g: Gathered,
    list: Seq<Json>,
    m: nat,
    n: nat,
    set: Item,
    identifier: u16,
)
    requires
        m <= n,
        set_data(s, g, list, m, set, identifier).error is Some,
    ensures
        set_data(s, g, list, n, set, identifier) == set_data(s, g, list, m, set, identifier),
    decreases n,
{
    if m < n {
        lemma_set_data_stop(s, g, list, m, (n - 1) as nat, set, identifier);
    }
}

/// With a name for ordinary images, if all went well.
pub open spec fn named_regular(out: Outcome, facet: Seq<char>, identifier: u16) -> Outcome {
    if out.error is None {
        fine(named(out.state, facet, ELEMENT_UNIVERSAL, Some(PART_REGULAR), identifier))
    } else {
        out
    }
}

/// A data set: its files, under the set's name.
pub open spec fn data_set<H: Fn(&str) -> u16>(
    s: Settings,
    hash: H,
    g: Gathered,
    set: Item,
    name: Seq<char>,
    namespace: Seq<char>,
) -> Outcome {
    let facet = namespace + name;
    let identifier = value_of(hash, facet);
    match item_at(set, "Contents.json"@) {
        None => fine(g),
        Some(file) => match file_json(file) {
            None => failed(g, CatalogError::BadJson),
            Some(contents) => {
                let list = items_of(contents, "data"@);
                named_regular(
                    set_data(s, g, list, list.len(), set, identifier),
                    facet,
                    identifier,
                )
            },
        },
    }
}

/// One image that belongs to a larger asset; skipped without a file, and in the
/// layers of a stack (`layered`) if it is for other devices.  Layers are gray where
/// they can be, and carry the devices they are for.
pub open spec fn part_image(
    s: Settings,
    g: Gathered,
    info: Json,
    set: Item,
    identifier: u16,
    atlas: u16,
    layered: bool,
) -> Outcome {
    match text_member(info, "filename"@) {
        None => fine(g),
        Some(filename) => match item_at(set, filename) {
            None => fine(g),
            Some(item) => if layered && !idiom_matches(info, s.platform) {
                fine(g)
            } else {
                match loaded_file(item, filename, s.force_bgra && !layered) {
                    Err(e) => failed(g, e),
                    Ok(image) => fine(
                        plus(
                            g,
                            RenditionModel {
                                sprite_atlas_id: atlas,
                                idiom: if layered {
                                    idiom_of(info, s.platform)
                                } else {
                                    0
                                },
                                ..image_rendition(
                                    s,
                                    filename,
                                    identifier,
                                    PART_REGULAR,
                                    scale_of(info),
                                    image,
                                )
                            },
                        ),
                    ),
                }
            },
        },
    }
}

/// The first `n` images of a part of an asset.
pub open spec fn part_images(
    s: Settings,
    g: Gathered,
    infos: Seq<Json>,
    n: nat,
    set: Item,
    identifier: u16,
    atlas: u16,
    layered: bool,
) -> Outcome
    decreases n,
{
    if n == 0 {
        fine(g)
    } else {
        let before = part_images(
            s,
            g,
            infos,
            (n - 1) as nat,
            set,
            identifier,
            atlas,
            layered,
        );
        if before.error is Some {
            before
        } else {
            part_image(s, before.state, infos[n - 1], set, identifier, atlas, layered)
        }
    }
}

proof fn lemma_part_images_stop(
    s: Settings,
    g: Gathered,
    infos: Seq<Json>,
    m: nat,
    n: nat,
    set: Item,
    identifier: u16,
    atlas: u16,
    layered: bool,
)
    requires
        m <= n,
        part_images(s, g, infos, m, set, identifier, atlas, layered).error is Some,
    ensures
        part_images(s, g, infos, n, set, identifier, atlas, layered) == part_images(
            s,
            g,
            infos,
            m,
            set,
            identifier,
            atlas,
            layered,
        ),
    decreases n,
{
    if m < n {
        lemma_part_images_stop(
            s,
            g,
            infos,
            m,
            (n - 1) as nat,
            set,
            identifier,
            atlas,
            layered,
        );
    }
}

/// A part of an asset: its images, under the part's name.
pub open spec fn asset_part(
    s: Settings,
    g: Gathered,
    set: Item,
    facet: Seq<char>,
    identifier: u16,
    atlas: u16,
    layered: bool,
) -> Outcome {
    match item_at(set, "Contents.json"@) {
        None => fine(g),
        Some(file) => match file_json(file) {
            None => failed(g, CatalogError::BadJson),
            Some(contents) => {
                let infos = items_of(contents, "images"@);
                named_regular(
                    part_images(s, g, infos, infos.len(), set, identifier, atlas, layered),
                    facet,
                    identifier,
                )
            },
        },
    }
}

/// One entry of a sprite atlas; only image sets are sprites.
pub open spec fn atlas_entry<H: Fn(&str) -> u16>(
    s: Settings,
    hash: H,
    g: Gathered,
    entry: (String, Item),
    name: Seq<char>,
) -> Outcome {
    if extension(entry.0@) != "imageset"@ {
        fine(g)
    } else {
        let facet = name + "/"@ + stem(entry.0@);
        asset_part(
            s,
            g,
            entry.1,
            facet,
            value_of(hash, facet),
            value_of(hash, name),
            false,
        )
    }
}

/// The first `n` entries of a sprite atlas.
pub open spec fn atlas_entries<H: Fn(&str) -> u16>(
    s: Settings,
    hash: H,
    g: Gathered,
    entries: Seq<(String, Item)>,
    n: nat,
    name: Seq<char>,
) -> Outcome
    decreases n,
{
    if n == 0 {
        fine(g)
    } else {
        let before = atlas_entries(s, hash, g, entries, (n - 1) as nat, name);
        if before.error is Some {
            before
        } else {
            atlas_entry(
                s,
                hash,
                before.state,
                entries[listing(entries)[n - 1] as int],
                name,
            )
        }
    }
}

proof fn lemma_atlas_entries_stop<H: Fn(&str) -> u16>(
    s: Settings,
    hash: H,
    g: Gathered,
    entries: Seq<(String, Item)>,
    m: nat,
    n: nat,
    name: Seq<char>,
)
    requires
        m <= n,
        atlas_entries(s, hash, g, entries, m, name).error is Some,
    ensures
        atlas_entries(s, hash, g, entries, n, name) == atlas_entries(s, hash, g, entries, m, name),
    decreases n,
{
    if m < n {
        lemma_atlas_entries_stop(s, hash, g, entries, m, (n - 1) as nat, name);
    }
}

/// A sprite atlas: its name, and its sprites.
pub open spec fn sprite_atlas<H: Fn(&str) -> u16>(
    s: Settings,
    hash: H,
    g: Gathered,
    set: Item,
    name: Seq<char>,
) -> Outcome {
    let g = named(g, name, ELEMENT_PACKED, None, value_of(hash, name));
    match set {
        Item::File(_) => fine(g),
        Item::Folder(entries) => atlas_entries(s, hash, g, entries@, entries@.len(), name),
    }
}

/// One layer of an image stack; skipped without a file, or without content.
pub open spec fn stack_layer<H: Fn(&str) -> u16>(
    s: Settings,
    hash: H,
    g: Gathered,
    layer: Json,
    stack: Item,
    name: Seq<char>,
) -> Outcome {
    match text_member(layer, "filename"@) {
        None => fine(g),
        Some(filename) => match item_at(stack, filename) {
            None => fine(g),
            Some(item) => match item_at(item, "Content.imageset"@) {
                None => fine(g),
                Some(content) => {
                    let facet = name + "/"@ + stem(file_name_of(filename)) + "/Content"@;
                    asset_part(s, g, content, facet, value_of(hash, facet), 0, true)
                },
            },
        },
    }
}

/// The first `n` layers of an image stack.
pub open spec fn stack_layers<H: Fn(&str) -> u16>(
    s: Settings,
    hash: H,
    g: Gathered,
    layers: Seq<Json>,
    n: nat,
    stack: Item,
    name: Seq<char>,
) -> Outcome
    decreases n,
{
    if n == 0 {
        fine(g)
    } else {
        let before = stack_layers(s, hash, g, layers, (n - 1) as nat, stack, name);
        if before.error is Some {
            before
        } else {
            stack_layer(s, hash, before.state, layers[n - 1], stack, name)
        }
    }
}

proof fn lemma_stack_layers_stop<H: Fn(&str) -> u16>(
    s: Settings,
    hash: H,
    g: Gathered,
    layers: Seq<Json>,
    m: nat,
    n: nat,
    stack: Item,
    name: Seq<char>,
)
    requires
        m <= n,
        stack_layers(s, hash, g, layers, m, stack, name).error is Some,
    ensures
        stack_layers(s, hash, g, layers, n, stack, name) == stack_layers(
            s,
            hash,
            g,
            layers,
            m,
            stack,
            name,
        ),
    decreases n,
{
    if m < n {
        lemma_stack_layers_stop(s, hash, g, layers, m, (n - 1) as nat, stack, name);
    }
}

/// An image stack: its layers.
pub open spec fn image_stack<H: Fn(&str) -> u16>(
    s: Settings,
    hash: H,
    g: Gathered,
    stack: Item,
    name: Seq<char>,
) -> Outcome {
    match item_at(stack, "Contents.json"@) {
        None => fine(g),
        Some(file) => match file_json(file) {
            None => failed(g, CatalogError::BadJson),
            Some(contents) => {
                let layers = items_of(contents, "layers"@);
                stack_layers(s, hash, g, layers, layers.len(), stack, name)
            },
        },
    }
}

/// One asset of a brand; only image stacks are read.
pub open spec fn brand_asset<H: Fn(&str) -> u16>(
    s: Settings,
    hash: H,
    g: Gathered,
    asset: Json,
    brand: Item,
) -> Outcome {
    match text_member(asset, "filename"@) {
        None => fine(g),
        Some(filename) => match item_at(brand, filename) {
            None => fine(g),
            Some(stack) => if extension(file_name_of(filename)) != "imagestack"@ {
                fine(g)
            } else {
                image_stack(s, hash, g, stack, stem(file_name_of(filename)))
            },
        },
    }
}

/// The first `n` assets of a brand.
pub open spec fn brand_assets<H: Fn(&str) -> u16>(
    s: Settings,
    hash: H,
    g: Gathered,
    assets: Seq<Json>,
    n: nat,
    brand: Item,
) -> Outcome
    decreases n,
{
    if n == 0 {
        fine(g)
    } else {
        let before = brand_assets(s, hash, g, assets, (n - 1) as nat, brand);
        if before.error is Some {
            before
        } else {
            brand_asset(s, hash, before.state, assets[n - 1], brand)
        }
    }
}

proof fn lemma_brand_assets_stop<H: Fn(&str) -> u16>(
    s: Settings,
    hash: H,
    g: Gathered,
    assets: Seq<Json>,
    m: nat,
    n: nat,
    brand: Item,
)
    requires
        m <= n,
        brand_assets(s, hash, g, assets, m, brand).error is Some,
    ensures
        brand_assets(s, hash, g, assets, n, brand) == brand_assets(s, hash, g, assets, m, brand),
    decreases n,
{
    if m < n {
        lemma_brand_assets_stop(s, hash, g, assets, m, (n - 1) as nat, brand);
    }
}

/// A brand: the image stacks among its assets, if it is the icon of an Apple TV.
pub open spec fn brand_set<H: Fn(&str) -> u16>(
    s: Settings,
    hash: H,
    g: Gathered,
    brand: Item,
    name: Seq<char>,
) -> Outcome {
    if s.app_icon != Some(name) || !tv_platform(s.platform) {
        fine(g)
    } else {
        match item_at(brand, "Contents.json"@) {
            None => fine(g),
            Some(file) => match file_json(file) {
                None => failed(g, CatalogError::BadJson),
                Some(contents) => {
                    let assets = items_of(contents, "assets"@);
                    brand_assets(s, hash, g, assets, assets.len(), brand)
                },
            },
        }
    }
}

impl AssetCatalog {
    /// A color set.
    fn parse_colorset<H: Fn(&str) -> u16, C: Fn(&str) -> u64>(
        &self,
        g: &mut Gathering,
        set: &Item,
        name: &str,
        namespace: &str,
        hash: &H,
        component: &C,
    ) -> (result: Result<(), CatalogError>)
        requires
            old(g).facets.wf(),
            is_text_function(*hash),
            is_text_function(*component),
        ensures
            final(g).facets.wf(),
            ends_as(
                result,
                final(g)@,
                color_set(
                    self.settings(),
                    *hash,
                    *component,
                    old(g)@,
                    *set,
                    name@,
                    namespace@,
                ),
            ),
    {
        let facet = concat(namespace, name);
        let identifier: u16 = ask(hash, facet.as_str());
        let contents = match set.find("Contents.json") {
            None => {
                return Ok(());
            },
            Some(file) => match read_json(file) {
                None => {
                    return Err(CatalogError::BadJson);
                },
                Some(contents) => contents,
            },
        };
        let count: usize = g.renditions.len();
        match contents.get_list("colors") {
            None => {},
            Some(colors) => {
                let ghost start = g@;
                let mut i: usize = 0;
                while i < colors.len()
                    invariant
                        i <= colors@.len(),
                        g.facets.wf(),
                        is_text_function(*component),
                        g@ == set_colors(
                            self.settings(),
                            *component,
                            start,
                            colors@,
                            i as nat,
                            name@,
                            identifier,
                        ),
                    decreases colors.len() - i,
                {
                    self.add_color(g, &colors[i], name, identifier, component);
                    i = i + 1;
                }
            },
        }
        if count < g.renditions.len() {
            g.name(facet.as_str(), ELEMENT_UNIVERSAL, Some(PART_COLOR), identifier);
        }
        Ok(())
    }

    /// One color of a color set.
    fn add_color<C: Fn(&str) -> u64>(
        &self,
        g: &mut Gathering,
        entry: &Json,
        name: &str,
        identifier: u16,
        component: &C,
    )
        requires
            old(g).facets.wf(),
            is_text_function(*component),
        ensures
            final(g).facets.wf(),
            final(g)@ == set_color(
                self.settings(),
                *component,
                old(g)@,
                *entry,
                name@,
                identifier,
            ),
    {
        let color = match entry.get("color") {
            Some(color) => color,
            None => {
                return;
            },
        };
        let components = match color.get("components") {
            Some(components) => components,
            None => {
                return;
            },
        };
        match components {
            Json::Null => {},
            _ => {
                let red: u64 = ask(component, components.get_text_or("red", "0"));
                let green: u64 = ask(component, components.get_text_or("green", "0"));
                let blue: u64 = ask(component, components.get_text_or("blue", "0"));
                let alpha: u64 = ask(component, components.get_text_or("alpha", "1"));
                let space = colorspace_id_for_name(color.get_text_or("color-space", "srgb"));
                let stored = build_color_csi(name, red, green, blue, alpha, space);
                let mut r = self.make_kept(
                    name,
                    identifier,
                    PART_COLOR,
                    LAYOUT_COLOR,
                    0,
                    stored,
                );
                r.appearance = appearance_from_json(entry);
                r.colorspace_id = 0;
                g.push(r);
            },
        }
    }

    /// One file of a data set.
    fn add_datum(
        &self,
        g: &mut Gathering,
        entry: &Json,
        set: &Item,
        identifier: u16,
    ) -> (result: Result<(), CatalogError>)
        requires
            old(g).facets.wf(),
        ensures
            final(g).facets.wf(),
            ends_as(
                result,
                final(g)@,
                set_datum(self.settings(), old(g)@, *entry, *set, identifier),
            ),
    {
        match entry.get_text("filename") {
            None => Ok(()),
            Some(filename) => match set.find(filename) {
                None => Ok(()),
                Some(item) => match read_data(item) {
                    None => Err(CatalogError::Unreadable),
                    Some(data) => {
                        let stored = build_data_csi(data.as_slice());
                        g.push(
                            self.make_kept(
                                "CoreStructuredImage",
                                identifier,
                                PART_REGULAR,
                                LAYOUT_RAW_DATA,
                                PIXELFMT_DATA,
                                stored,
                            ),
                        );
                        Ok(())
                    },
                },
            },
        }
    }

    /// A data set.
    fn parse_dataset<H: Fn(&str) -> u16>(
        &self,
        g: &mut Gathering,
        set: &Item,
        name: &str,
        namespace: &str,
        hash: &H,
    ) -> (result: Result<(), CatalogError>)
        requires
            old(g).facets.wf(),
            is_text_function(*hash),
        ensures
            final(g).facets.wf(),
            ends_as(
                result,
                final(g)@,
                data_set(self.settings(), *hash, old(g)@, *set, name@, namespace@),
            ),
    {
        let facet = concat(namespace, name);
        let identifier: u16 = ask(hash, facet.as_str());
        let contents = match set.find("Contents.json") {
            None => {
                return Ok(());
            },
            Some(file) => match read_json(file) {
                None => {
                    return Err(CatalogError::BadJson);
                },
                Some(contents) => contents,
            },
        };
        match contents.get_list("data") {
            None => {},
            Some(list) => {
                let ghost start = g@;
                let mut i: usize = 0;
                while i < list.len()
                    invariant
                        i <= list@.len(),
                        g.facets.wf(),
                        fine(g@) == set_data(
                            self.settings(),
                            start,
                            list@,
                            i as nat,
                            *set,
                            identifier,
                        ),
                        data_set(self.settings(), *hash, start, *set, name@, namespace@)
                            == named_regular(
                            set_data(
                                self.settings(),
                                start,
                                list@,
                                list@.len(),
                                *set,
                                identifier,
                            ),
                            facet@,
                            identifier,
                        ),
                        start == old(g)@,
                    decreases list.len() - i,
                {
                    match self.add_datum(g, &list[i], set, identifier) {
                        Ok(()) => {},
                        Err(e) => {
                            proof {
                                lemma_set_data_stop(
                                    self.settings(),
                                    start,
                                    list@,
                                    (i + 1) as nat,
                                    list@.len(),
                                    *set,
                                    identifier,
                                );
                            }
                            return Err(e);
                        },
                    }
                    i = i + 1;
                }
            },
        }
        g.name(facet.as_str(), ELEMENT_UNIVERSAL, Some(PART_REGULAR), identifier);
        Ok(())
    }

    /// One image that belongs to a larger asset.
    fn add_part_image(
        &self,
        g: &mut Gathering,
        info: &Json,
        set: &Item,
        identifier: u16,
        atlas: u16,
        layered: bool,
    ) -> (result: Result<(), CatalogError>)
        requires
            old(g).facets.wf(),
        ensures
            final(g).facets.wf(),
            ends_as(
                result,
                final(g)@,
                part_image(self.settings(), old(g)@, *info, *set, identifier, atlas, layered),
            ),
    {
        match info.get_text("filename") {
            None => Ok(()),
            Some(filename) => match set.find(filename) {
                None => Ok(()),
                Some(item) => {
                    if layered && !check_idiom(info, self.platform.as_str()) {
                        return Ok(());
                    }
                    match load_file(item, filename, self.force_bgra && !layered) {
                        Err(e) => Err(e),
                        Ok((pixels, width, height, format)) => {
                            let mut r = self.make_image(
                                filename,
                                identifier,
                                PART_REGULAR,
                                parse_scale(info),
                                pixels,
                                width,
                                height,
                                format,
                            );
                            r.sprite_atlas_id = atlas;
                            if layered {
                                r.idiom = find_idiom(info, self.platform.as_str());
                            }
                            g.push(r);
                            Ok(())
                        },
                    }
                },
            },
        }
    }

    /// A part of an asset.
    fn add_part(
        &self,
        g: &mut Gathering,
        set: &Item,
        facet: &str,
        identifier: u16,
        atlas: u16,
        layered: bool,
    ) -> (result: Result<(), CatalogError>)
        requires
            old(g).facets.wf(),
        ensures
            final(g).facets.wf(),
            ends_as(
                result,
                final(g)@,
                asset_part(self.settings(), old(g)@, *set, facet@, identifier, atlas, layered),
            ),
    {
        let contents = match set.find("Contents.json") {
            None => {
                return Ok(());
            },
            Some(file) => match read_json(file) {
                None => {
                    return Err(CatalogError::BadJson);
                },
                Some(contents) => contents,
            },
        };
        match contents.get_list("images") {
            None => {},
            Some(infos) => {
                let ghost start = g@;
                let mut i: usize = 0;
                while i < infos.len()
                    invariant
                        i <= infos@.len(),
                        g.facets.wf(),
                        fine(g@) == part_images(
                            self.settings(),
                            start,
                            infos@,
                            i as nat,
                            *set,
                            identifier,
                            atlas,
                            layered,
                        ),
                        asset_part(
                            self.settings(),
                            start,
                            *set,
                            facet@,
                            identifier,
                            atlas,
                            layered,
                        ) == named_regular(
                            part_images(
                                self.settings(),
                                start,
                                infos@,
                                infos@.len(),
                                *set,
                                identifier,
                                atlas,
                                layered,
                            ),
                            facet@,
                            identifier,
                        ),
                        start == old(g)@,
                    decreases infos.len() - i,
                {
                    match self.add_part_image(g, &infos[i], set, identifier, atlas, layered) {
                        Ok(()) => {},
                        Err(e) => {
                            proof {
                                lemma_part_images_stop(
                                    self.settings(),
                                    start,
                                    infos@,
                                    (i + 1) as nat,
                                    infos@.len(),
                                    *set,
                                    identifier,
                                    atlas,
                                    layered,
                                );
                            }
                            return Err(e);
                        },
                    }
                    i = i + 1;
                }
            },
        }
        g.name(facet, ELEMENT_UNIVERSAL, Some(PART_REGULAR), identifier);
        Ok(())
    }

    /// A sprite atlas.
    fn parse_spriteatlas<H: Fn(&str) -> u16>(
        &self,
        g: &mut Gathering,
        set: &Item,
        name: &str,
        hash: &H,
    ) -> (result: Result<(), CatalogError>)
        requires
            old(g).facets.wf(),
            is_text_function(*hash),
        ensures
            final(g).facets.wf(),
            ends_as(
                result,
                final(g)@,
                sprite_atlas(self.settings(), *hash, old(g)@, *set, name@),
            ),
    {
        let atlas: u16 = ask(hash, name);
        g.name(name, ELEMENT_PACKED, None, atlas);
        match set {
            Item::File(_) => Ok(()),
            Item::Folder(entries) => {
                let order = list_entries(entries);
                let ghost start = g@;
                let mut i: usize = 0;
                while i < order.len()
                    invariant
                        i <= order@.len(),
                        order@ == listing(entries@),
                        crate::order::is_permutation(order@, entries@.len()),
                        g.facets.wf(),
                        is_text_function(*hash),
                        atlas == value_of(*hash, name@),
                        fine(g@) == atlas_entries(
                            self.settings(),
                            *hash,
                            start,
                            entries@,
                            i as nat,
                            name@,
                        ),
                        sprite_atlas(self.settings(), *hash, old(g)@, *set, name@)
                            == atlas_entries(
                            self.settings(),
                            *hash,
                            start,
                            entries@,
                            entries@.len(),
                            name@,
                        ),
                    decreases order.len() - i,
                {
                    let at: usize = order[i];
                    let (sprite, kind) = split_extension(entries[at].0.as_str());
                    if same_text(kind, "imageset") {
                        let mut facet = concat(name, "/");
                        put_str(&mut facet, sprite);
                        let identifier: u16 = ask(hash, facet.as_str());
                        match self.add_part(
                            g,
                            &entries[at].1,
                            facet.as_str(),
                            identifier,
                            atlas,
                            false,
                        ) {
                            Ok(()) => {},
                            Err(e) => {
                                proof {
                                    lemma_atlas_entries_stop(
                                        self.settings(),
                                        *hash,
                                        start,
                                        entries@,
                                        (i + 1) as nat,
                                        entries@.len(),
                                        name@,
                                    );
                                }
                                return Err(e);
                            },
                        }
                    }
                    i = i + 1;
                }
                Ok(())
            },
        }
    }

    /// One layer of an image stack.
    fn add_layer<H: Fn(&str) -> u16>(
        &self,
        g: &mut Gathering,
        layer: &Json,
        stack: &Item,
        name: &str,
        hash: &H,
    ) -> (result: Result<(), CatalogError>)
        requires
            old(g).facets.wf(),
            is_text_function(*hash),
        ensures
            final(g).facets.wf(),
            ends_as(
                result,
                final(g)@,
                stack_layer(self.settings(), *hash, old(g)@, *layer, *stack, name@),
            ),
    {
        match layer.get_text("filename") {
            None => Ok(()),
            Some(filename) => match stack.find(filename) {
                None => Ok(()),
                Some(item) => match item.find("Content.imageset") {
                    None => Ok(()),
                    Some(content) => {
                        let (layer_name, _) = split_extension(file_name(filename));
                        let mut facet = concat(name, "/");
                        put_str(&mut facet, layer_name);
                        put_str(&mut facet, "/Content");
                        let identifier: u16 = ask(hash, facet.as_str());
                        self.add_part(g, content, facet.as_str(), identifier, 0, true)
                    },
                },
            },
        }
    }

    /// An image stack.
    fn parse_imagestack<H: Fn(&str) -> u16>(
        &self,
        g: &mut Gathering,
        stack: &Item,
        name: &str,
        hash: &H,
    ) -> (result: Result<(), CatalogError>)
        requires
            old(g).facets.wf(),
            is_text_function(*hash),
        ensures
            final(g).facets.wf(),
            ends_as(
                result,
                final(g)@,
                image_stack(self.settings(), *hash, old(g)@, *stack, name@),
            ),
    {
        let contents = match stack.find("Contents.json") {
            None => {
                return Ok(());
            },
            Some(file) => match read_json(file) {
                None => {
                    return Err(CatalogError::BadJson);
                },
                Some(contents) => contents,
            },
        };
        match contents.get_list("layers") {
            None => Ok(()),
            Some(layers) => {
                let ghost start = g@;
                let mut i: usize = 0;
                while i < layers.len()
                    invariant
                        i <= layers@.len(),
                        g.facets.wf(),
                        is_text_function(*hash),
                        fine(g@) == stack_layers(
                            self.settings(),
                            *hash,
                            start,
                            layers@,
                            i as nat,
                            *stack,
                            name@,
                        ),
                        image_stack(self.settings(), *hash, start, *stack, name@) == stack_layers(
                            self.settings(),
                            *hash,
                            start,
                            layers@,
                            layers@.len(),
                            *stack,
                            name@,
                        ),
                        start == old(g)@,
                    decreases layers.len() - i,
                {
                    match self.add_layer(g, &layers[i], stack, name, hash) {
                        Ok(()) => {},
                        Err(e) => {
                            proof {
                                lemma_stack_layers_stop(
                                    self.settings(),
                                    *hash,
                                    start,
                                    layers@,
                                    (i + 1) as nat,
                                    layers@.len(),
                                    *stack,
                                    name@,
                                );
                            }
                            return Err(e);
                        },
                    }
                    i = i + 1;
                }
                Ok(())
            },
        }
    }

    /// One asset of a brand.
    fn add_brand_asset<H: Fn(&str) -> u16>(
        &self,
        g: &mut Gathering,
        asset: &Json,
        brand: &Item,
        hash: &H,
    ) -> (result: Result<(), CatalogError>)
        requires
            old(g).facets.wf(),
            is_text_function(*hash),
        ensures
            final(g).facets.wf(),
            ends_as(
                result,
                final(g)@,
                brand_asset(self.settings(), *hash, old(g)@, *asset, *brand),
            ),
    {
        match asset.get_text("filename") {
            None => Ok(()),
            Some(filename) => match brand.find(filename) {
                None => Ok(()),
                Some(stack) => {
                    let (name, kind) = split_extension(file_name(filename));
                    if same_text(kind, "imagestack") {
                        self.parse_imagestack(g, stack, name, hash)
                    } else {
                        Ok(())
                    }
                },
            },
        }
    }

    /// A brand.
    pub(crate) fn parse_brandassets<H: Fn(&str) -> u16>(
        &self,
        g: &mut Gathering,
        brand: &Item,
        name: &str,
        hash: &H,
    ) -> (result: Result<(), CatalogError>)
        requires
            old(g).facets.wf(),
            is_text_function(*hash),
        ensures
            final(g).facets.wf(),
            ends_as(
                result,
                final(g)@,
                brand_set(self.settings(), *hash, old(g)@, *brand, name@),
            ),
    {
        match &self.app_icon {
            None => {
                return Ok(());
            },
            Some(app_icon) => {
                if !same_text(name, app_icon.as_str()) || !is_tv_platform(self.platform.as_str()) {
                    return Ok(());
                }
            },
        }
        let contents = match brand.find("Contents.json") {
            None => {
                return Ok(());
            },
            Some(file) => match read_json(file) {
                None => {
                    return Err(CatalogError::BadJson);
                },
                Some(contents) => contents,
            },
        };
        match contents.get_list("assets") {
            None => Ok(()),
            Some(assets) => {
                let ghost start = g@;
                let mut i: usize = 0;
                while i < assets.len()
                    invariant
                        i <= assets@.len(),
                        g.facets.wf(),
                        is_text_function(*hash),
                        fine(g@) == brand_assets(
                            self.settings(),
                            *hash,
                            start,
                            assets@,
                            i as nat,
                            *brand,
                        ),
                        brand_set(self.settings(), *hash, start, *brand, name@) == brand_assets(
                            self.settings(),
                            *hash,
                            start,
                            assets@,
                            assets@.len(),
                            *brand,
                        ),
                        start == old(g)@,
                    decreases assets.len() - i,
                {
                    match self.add_brand_asset(g, &assets[i], brand, hash) {
                        Ok(()) => {},
                        Err(e) => {
                            proof {
                                lemma_brand_assets_stop(
                                    self.settings(),
                                    *hash,
                                    start,
                                    assets@,
                                    (i + 1) as nat,
                                    assets@.len(),
                                    *brand,
                                );
                            }
                            return Err(e);
                        },
                    }
                    i = i + 1;
                }
                Ok(())
            },
        }
    }
}

/// The prefix of the names in a group: groups that provide a namespace add their
/// own name.
pub open spec fn group_namespace(group: Item, name: Seq<char>, namespace: Seq<char>) -> Seq<char> {
    match item_at(group, "Contents.json"@) {
        None => namespace,
        Some(file) => match file_json(file) {
            None => namespace,
            Some(contents) => if provides_namespace(contents) {
                namespace + name + "/"@
            } else {
                namespace
            },
        },
    }
}

/// Reading goes on behind a set.
pub open spec fn settled(out: Outcome) -> Outcome {
    Outcome { points: Seq::empty(), ..out }
}

/// A set of a catalog, by its extension; anything else is no set.
#[verifier::opaque]
pub open spec fn catalog_set<H: Fn(&str) -> u16, C: Fn(&str) -> u64>(
    s: Settings,
    hash: H,
    component: C,
    g: Gathered,
    entry: (String, Item),
    dir: Seq<char>,
    namespace: Seq<char>,
) -> Outcome {
    let kind = extension(entry.0@);
    let name = stem(entry.0@);
    if kind == "imageset"@ {
        image_set(s, hash, g, entry.1, joined(dir, entry.0@), name, namespace)
    } else if kind == "appiconset"@ {
        app_icon_set(s, hash, g, entry.1, name)
    } else if kind == "iconset"@ {
        icon_set(s, hash, g, entry.1, name, namespace)
    } else if kind == "colorset"@ {
        color_set(s, hash, component, g, entry.1, name, namespace)
    } else if kind == "dataset"@ {
        data_set(s, hash, g, entry.1, name, namespace)
    } else if kind == "spriteatlas"@ {
        sprite_atlas(s, hash, g, entry.1, name)
    } else if kind == "imagestack"@ {
        image_stack(s, hash, g, entry.1, name)
    } else if kind == "brandassets"@ {
        brand_set(s, hash, g, entry.1, name)
    } else {
        fine(g)
    }
}

/// The first `n` entries of a folder of a catalog: sets are read, and folders
/// without an extension are groups to be entered.
pub open spec fn catalog_entries<H: Fn(&str) -> u16, C: Fn(&str) -> u64>(
    s: Settings,
    hash: H,
    component: C,
    g: Gathered,
    entries: Seq<(String, Item)>,
    n: nat,
    dir: Seq<char>,
    namespace: Seq<char>,
) -> Outcome
    decreases entries, n,
{
    if n == 0 {
        fine(g)
    } else {
        let before = catalog_entries(
            s,
            hash,
            component,
            g,
            entries,
            (n - 1) as nat,
            dir,
            namespace,
        );
        let k = listing(entries)[n - 1] as int;
        if before.error is Some || k >= entries.len() {
            before
        } else {
            let name = entries[k].0@;
            match entries[k].1 {
                Item::Folder(inner) => if extension(name).len() == 0 {
                    settled(
                        catalog_entries(
                            s,
                            hash,
                            component,
                            before.state,
                            inner@,
                            inner@.len(),
                            joined(dir, name),
                            group_namespace(entries[k].1, name, namespace),
                        ),
                    )
                } else {
                    settled(
                        catalog_set(
                            s,
                            hash,
                            component,
                            before.state,
                            entries[k],
                            dir,
                            namespace,
                        ),
                    )
                },
                Item::File(_) => settled(
                    catalog_set(s, hash, component, before.state, entries[k], dir, namespace),
                ),
            }
        }
    }
}

proof fn lemma_catalog_entries_stop<H: Fn(&str) -> u16, C: Fn(&str) -> u64>(
    s: Settings,
    hash: H,
    component: C,
    g: Gathered,
    entries: Seq<(String, Item)>,
    m: nat,
    n: nat,
    dir: Seq<char>,
    namespace: Seq<char>,
)
    requires
        m <= n,
        catalog_entries(s, hash, component, g, entries, m, dir, namespace).error is Some,
    ensures
        catalog_entries(s, hash, component, g, entries, n, dir, namespace) == catalog_entries(
            s,
            hash,
            component,
            g,
            entries,
            m,
            dir,
            namespace,
        ),
    decreases n,
{
    if m < n {
        lemma_catalog_entries_stop(
            s,
            hash,
            component,
            g,
            entries,
            m,
            (n - 1) as nat,
            dir,
            namespace,
        );
    }
}

/// A catalog: what is found in its folder.
pub open spec fn catalog_of<H: Fn(&str) -> u16, C: Fn(&str) -> u64>(
    s: Settings,
    hash: H,
    component: C,
    g: Gathered,
    root: Option<Item>,
    path: Seq<char>,
) -> Outcome {
    match root {
        None => failed(g, CatalogError::NotFound),
        Some(Item::File(_)) => fine(g),
        Some(Item::Folder(entries)) => catalog_entries(
            s,
            hash,
            component,
            g,
            entries@,
            entries@.len(),
            path,
            Seq::empty(),
        ),
    }
}

/// Nothing found yet but the languages and copies of earlier.
pub open spec fn begun(
    locales: Seq<Seq<char>>,
    loose_jpegs: Seq<(Seq<char>, Seq<char>)>,
) -> Gathered {
    Gathered { renditions: Seq::empty(), facets: Seq::empty(), locales, loose_jpegs }
}

/// An item behind a reference.
pub open spec fn item_view(item: Option<&Item>) -> Option<Item> {
    match item {
        Some(i) => Some(*i),
        None => None,
    }
}

/// Finds the prefix of the names in a group.
fn find_namespace(group: &Item, name: &str, namespace: &str) -> (out: String)
    ensures
        out@ == group_namespace(*group, name@, namespace@),
{
    let mut out = namespace.to_owned();
    match group.find("Contents.json") {
        None => {},
        Some(file) => match read_json(file) {
            None => {},
            Some(contents) => {
                if check_namespace(contents) {
                    put_str(&mut out, name);
                    put_str(&mut out, "/");
                }
            },
        },
    }
    out
}

impl AssetCatalog {
    /// A set of a catalog.
    fn parse_set<H: Fn(&str) -> u16, C: Fn(&str) -> u64>(
        &self,
        g: &mut Gathering,
        entry: &(String, Item),
        dir: &str,
        namespace: &str,
        hash: &H,
        component: &C,
    ) -> (result: Result<(), CatalogError>)
        requires
            old(g).facets.wf(),
            is_text_function(*hash),
            is_text_function(*component),
        ensures
            final(g).facets.wf(),
            ends_as(
                result,
                final(g)@,
                catalog_set(
                    self.settings(),
                    *hash,
                    *component,
                    old(g)@,
                    *entry,
                    dir@,
                    namespace@,
                ),
            ),
    {
        proof {
            reveal(catalog_set);
        }
        let item = &entry.1;
        let (name, kind) = split_extension(entry.0.as_str());
        if same_text(kind, "imageset") {
            let path = join(dir, entry.0.as_str());
            self.parse_imageset(g, item, path.as_str(), name, namespace, hash)
        } else if same_text(kind, "appiconset") {
            self.parse_appiconset(g, item, name, hash)
        } else if same_text(kind, "iconset") {
            self.parse_iconset(g, item, name, namespace, hash)
        } else if same_text(kind, "colorset") {
            self.parse_colorset(g, item, name, namespace, hash, component)
        } else if same_text(kind, "dataset") {
            self.parse_dataset(g, item, name, namespace, hash)
        } else if same_text(kind, "spriteatlas") {
            self.parse_spriteatlas(g, item, name, hash)
        } else if same_text(kind, "imagestack") {
            self.parse_imagestack(g, item, name, hash)
        } else if same_text(kind, "brandassets") {
            self.parse_brandassets(g, item, name, hash)
        } else {
            Ok(())
        }
    }

    /// A folder of a catalog.
    fn parse_directory<H: Fn(&str) -> u16, C: Fn(&str) -> u64>(
        &self,
        g: &mut Gathering,
        entries: &Vec<(String, Item)>,
        dir: &str,
        namespace: &str,
        hash: &H,
        component: &C,
    ) -> (result: Result<(), CatalogError>)
        requires
            old(g).facets.wf(),
            is_text_function(*hash),
            is_text_function(*component),
        ensures
            final(g).facets.wf(),
            ends_as(
                result,
                final(g)@,
                catalog_entries(
                    self.settings(),
                    *hash,
                    *component,
                    old(g)@,
                    entries@,
                    entries@.len(),
                    dir@,
                    namespace@,
                ),
            ),
        decreases entries@,
    {
        let order = list_entries(entries);
        let ghost start = g@;
        let mut i: usize = 0;
        while i < order.len()
            invariant
                i <= order@.len(),
                order@ == listing(entries@),
                crate::order::is_permutation(order@, entries@.len()),
                g.facets.wf(),
                is_text_function(*hash),
                is_text_function(*component),
                fine(g@) == catalog_entries(
                    self.settings(),
                    *hash,
                    *component,
                    start,
                    entries@,
                    i as nat,
                    dir@,
                    namespace@,
                ),
                start == old(g)@,
            decreases order.len() - i,
        {
            let at: usize = order[i];
            let ghost before = g@;
            let (_, kind) = split_extension(entries[at].0.as_str());
            let mut result: Result<(), CatalogError> = Ok(());
            let mut group = false;
            if kind.unicode_len() == 0 {
                match &entries[at].1 {
                    Item::Folder(inner) => {
                        group = true;
                        let name = entries[at].0.as_str();
                        let path = join(dir, name);
                        let prefix = find_namespace(&entries[at].1, name, namespace);
                        assert(decreases_to!(entries@ => inner@)) by {
                            assert(decreases_to!(entries@ => entries@[at as int]));
                            assert(decreases_to!(entries@[at as int] => entries@[at as int].1));
                        }
                        result = self.parse_directory(
                            g,
                            inner,
                            path.as_str(),
                            prefix.as_str(),
                            hash,
                            component,
                        );
                    },
                    Item::File(_) => {},
                }
            }
            if !group {
                result = self.parse_set(g, &entries[at], dir, namespace, hash, component);
            }
            match result {
                Ok(()) => {},
                Err(e) => {
                    proof {
                        lemma_catalog_entries_stop(
                            self.settings(),
                            *hash,
                            *component,
                            start,
                            entries@,
                            (i + 1) as nat,
                            entries@.len(),
                            dir@,
                            namespace@,
                        );
                    }
                    return Err(e);
                },
            }
            i = i + 1;
        }
        Ok(())
    }

    /// Reads the catalog: its renditions, and the names they have.  `hash` gives
    /// names their numbers, and `component` reads the components of colors.
    pub fn parse<H: Fn(&str) -> u16, C: Fn(&str) -> u64>(
        &mut self,
        root: Option<&Item>,
        hash: &H,
        component: &C,
    ) -> (result: Result<(Vec<Rendition>, FacetTable), CatalogError>)
        requires
            is_text_function(*hash),
            is_text_function(*component),
        ensures
            final(self).settings() == old(self).settings(),
            final(self).place() == old(self).place(),
            ({
                let out = catalog_of(
                    old(self).settings(),
                    *hash,
                    *component,
                    begun(old(self).locales(), old(self).copies()),
                    item_view(root),
                    old(self).place(),
                );
                &&& final(self).locales() == out.state.locales
                &&& final(self).copies() == out.state.loose_jpegs
                &&& match result {
                    Ok((renditions, facets)) => {
                        &&& out.error is None
                        &&& models(renditions@) == out.state.renditions
                        &&& facets@ == out.state.facets
                        &&& facets.wf()
                    },
                    Err(e) => out.error == Some(e),
                }
            }),
    {
        let mut g = Gathering {
            renditions: Vec::new(),
            facets: FacetTable::new(),
            locales: Vec::new(),
            loose_jpegs: Vec::new(),
        };
        core::mem::swap(&mut g.locales, &mut self.locales_used);
        core::mem::swap(&mut g.loose_jpegs, &mut self.loose_jpegs);
        assert(self.settings() == old(self).settings());
        assert(g@ =~= begun(old(self).locales(), old(self).copies()));
        let result = match root {
            None => Err(CatalogError::NotFound),
            Some(item) => match item {
                Item::File(_) => Ok(()),
                Item::Folder(entries) => {
                    proof {
                        reveal_strlit("");
                        assert(""@ =~= Seq::empty());
                    }
                    self.parse_directory(
                        &mut g,
                        entries,
                        self.path.as_str(),
                        "",
                        hash,
                        component,
                    )
                },
            },
        };
        let Gathering { renditions, facets, locales, loose_jpegs } = g;
        self.locales_used = locales;
        self.loose_jpegs = loose_jpegs;
        match result {
            Ok(()) => Ok((renditions, facets)),
            Err(e) => Err(e),
        }
    }

    /// The platform that the catalog is compiled for.
    pub(crate) fn get_platform(&self) -> (platform: &str)
        ensures
            platform@ == self.settings().platform,
    {
        self.platform.as_str()
    }

    /// Where the catalog is.
    pub closed spec fn place(&self) -> Seq<char> {
        self.path@
    }

    /// The languages that images were found for, sorted.
    pub fn get_locales_used(&self) -> (locales: Vec<String>)
        ensures
            texts(locales@) == sorted_texts(self.locales()),
    {
        let mut names: Vec<String> = Vec::new();
        let mut i: usize = 0;
        while i < self.locales_used.len()
            invariant
                i <= self.locales_used@.len(),
                names@.len() == i,
                forall|j: int| 0 <= j < i ==> (#[trigger] names@[j])@ == self.locales_used@[j]@,
            decreases self.locales_used.len() - i,
        {
            names.push(self.locales_used[i].as_str().to_owned());
            i = i + 1;
        }
        assert(texts(names@) =~= texts(self.locales_used@));
        sort_texts(names)
    }
}

/// An icon image file: where it is, its width in pixels, and its scale.  Documents
/// are left out, and files without a size.
pub open spec fn icon_image(
    info: Json,
    set: Item,
    dir: Seq<char>,
) -> Option<(Seq<char>, nat, u32)> {
    match text_member(info, "filename"@) {
        None => None,
        Some(filename) => if kind_of(filename) == ImageKind::Svg || item_at(set, filename) is None {
            None
        } else {
            match point_width(info) {
                None => None,
                Some(point_w) => Some(
                    (
                        joined(dir, filename),
                        (point_w as nat) * (scale_of(info) as nat),
                        scale_of(info),
                    ),
                ),
            }
        },
    }
}

/// The image files among the first `n` icons of a set.
pub open spec fn icon_images(infos: Seq<Json>, n: nat, set: Item, dir: Seq<char>) -> Seq<
    (Seq<char>, nat, u32),
>
    decreases n,
{
    if n == 0 {
        Seq::empty()
    } else {
        let before = icon_images(infos, (n - 1) as nat, set, dir);
        match icon_image(infos[n - 1], set, dir) {
            Some(image) => before.push(image),
            None => before,
        }
    }
}

/// The image files of the icon set that was asked for; none without one.
pub open spec fn catalog_icons(s: Settings, root: Option<Item>, path: Seq<char>) -> Result<
    Seq<(Seq<char>, nat, u32)>,
    CatalogError,
> {
    match (s.app_icon, root) {
        (Some(name), Some(item)) => {
            let folder = name + ".appiconset"@;
            match item_at(item, folder) {
                None => Ok(Seq::empty()),
                Some(set) => match item_at(set, "Contents.json"@) {
                    None => Ok(Seq::empty()),
                    Some(file) => match file_json(file) {
                        None => Err(CatalogError::BadJson),
                        Some(contents) => {
                            let infos = items_of(contents, "images"@);
                            Ok(icon_images(infos, infos.len(), set, joined(path, folder)))
                        },
                    },
                },
            }
        },
        _ => Ok(Seq::empty()),
    }
}

/// Icon image files with their paths as texts.
pub open spec fn icon_views(icons: Seq<(String, u64, u32)>) -> Seq<(Seq<char>, nat, u32)> {
    Seq::new(icons.len(), |i: int| (icons[i].0@, icons[i].1 as nat, icons[i].2))
}

impl AssetCatalog {
    /// The image files of the icon set that was asked for: where they are, their
    /// widths in pixels, and their scales.
    pub fn get_icon_images(&self, root: Option<&Item>) -> (icons: Result<
        Vec<(String, u64, u32)>,
        CatalogError,
    >)
        ensures
            match icons {
                Ok(list) => catalog_icons(self.settings(), item_view(root), self.place()) == Ok::<
                    Seq<(Seq<char>, nat, u32)>,
                    CatalogError,
                >(icon_views(list@)),
                Err(e) => catalog_icons(self.settings(), item_view(root), self.place()) == Err::<
                    Seq<(Seq<char>, nat, u32)>,
                    CatalogError,
                >(e),
            },
    {
        let mut icons: Vec<(String, u64, u32)> = Vec::new();
        assert(icon_views(icons@) =~= Seq::empty());
        let (folder, item) = match (&self.app_icon, root) {
            (Some(name), Some(item)) => (concat(name.as_str(), ".appiconset"), item),
            _ => {
                return Ok(icons);
            },
        };
        let set = match item.find(folder.as_str()) {
            None => {
                return Ok(icons);
            },
            Some(set) => set,
        };
        let contents = match set.find("Contents.json") {
            None => {
                return Ok(icons);
            },
            Some(file) => match read_json(file) {
                None => {
                    return Err(CatalogError::BadJson);
                },
                Some(contents) => contents,
            },
        };
        let dir = join(self.path.as_str(), folder.as_str());
        match contents.get_list("images") {
            None => {},
            Some(infos) => {
                let mut i: usize = 0;
                while i < infos.len()
                    invariant
                        i <= infos@.len(),
                        icon_views(icons@) == icon_images(infos@, i as nat, *set, dir@),
                    decreases infos.len() - i,
                {
                    let ghost before = icons@;
                    match find_icon_image(&infos[i], set, dir.as_str()) {
                        Some(icon) => {
                            icons.push(icon);
                            assert(icon_views(icons@) =~= icon_views(before).push(
                                (icon.0@, icon.1 as nat, icon.2),
                            ));
                        },
                        None => {},
                    }
                    i = i + 1;
                }
            },
        }
        Ok(icons)
    }
}

fn find_icon_image(info: &Json, set: &Item, dir: &str) -> (icon: Option<(String, u64, u32)>)
    ensures
        match icon {
            Some(i) => icon_image(*info, *set, dir@) == Some((i.0@, i.1 as nat, i.2)),
            None => icon_image(*info, *set, dir@) is None,
        },
{
    let filename = match info.get_text("filename") {
        None => {
            return None;
        },
        Some(filename) => filename,
    };
    if image_kind(filename) == ImageKind::Svg {
        return None;
    }
    match set.find(filename) {
        None => {
            return None;
        },
        Some(_) => {},
    }
    let scale: u32 = parse_scale(info);
    match parse_point_width(info) {
        None => None,
        Some(point_w) => {
            assert(point_w * scale <= 0xffff_ffff * 0xffff_ffff) by (nonlinear_arith)
                requires
                    point_w <= 0xffff_ffff,
                    scale <= 0xffff_ffff,
            ;
            Some((join(dir, filename), point_w as u64 * scale as u64, scale))
        },
    }
}

/// An image of an icon set, with texts.
pub struct IconModel {
    pub path: Seq<char>,
    pub extension: Option<Seq<char>>,
    pub idiom: Seq<char>,
    pub point_w: u32,
    pub scale: u32,
}

impl View for IconImage {
    type V = IconModel;

    open spec fn view(&self) -> IconModel {
        IconModel {
            path: self.path@,
            extension: optional_text(self.extension),
            idiom: self.idiom@,
            point_w: self.point_w,
            scale: self.scale,
        }
    }
}

/// What follows the last dot of the last component of a path, if it has one.
pub open spec fn suffix_of(path: Seq<char>) -> Option<Seq<char>> {
    let name = file_name_of(path);
    match extension_dot(name, name.len() as int) {
        Some(_) => Some(extension(name)),
        None => None,
    }
}

/// What follows the last dot of the last component of a path, if it has one.
pub fn find_suffix(path: &str) -> (suffix: Option<&str>)
    ensures
        match suffix {
            Some(s) => suffix_of(path@) == Some(s@),
            None => suffix_of(path@) is None,
        },
{
    let name = file_name(path);
    let (first, second) = split_extension(name);
    if first.unicode_len() < name.unicode_len() {
        Some(second)
    } else {
        proof {
            lemma_dot_inside(name@, name@.len() as int);
        }
        None
    }
}

/// The dot before an extension is inside the name.
proof fn lemma_dot_inside(name: Seq<char>, len: int)
    requires
        len <= name.len(),
    ensures
        match extension_dot(name, len) {
            Some(at) => 0 < at < len,
            None => true,
        },
    decreases len,
{
    if len > 1 && name[len - 1] != '.' {
        lemma_dot_inside(name, len - 1);
    }
}

/// An image of an icon set, if it has a file and a size.
pub open spec fn set_icon(info: Json, set: Item, dir: Seq<char>) -> Option<IconModel> {
    match text_member(info, "filename"@) {
        None => None,
        Some(filename) => if item_at(set, filename) is None {
            None
        } else {
            match point_width(info) {
                None => None,
                Some(point_w) => Some(
                    IconModel {
                        path: joined(dir, filename),
                        extension: suffix_of(joined(dir, filename)),
                        idiom: text_or(info, "idiom"@, "universal"@),
                        point_w,
                        scale: scale_of(info),
                    },
                ),
            }
        },
    }
}

/// An image for a device, in its home screen size.
pub open spec fn home_icon(icon: IconModel, idiom: Seq<char>) -> IconModel {
    IconModel { idiom, point_w: primary_size(idiom)->0, scale: 2, ..icon }
}

/// An image for the devices of a platform: on iOS an image for all devices serves the
/// home screens of phone and pad.
pub open spec fn icon_uses(platform: Seq<char>, icon: IconModel) -> Seq<IconModel> {
    if ios_platform(platform) && icon.idiom == "universal"@ {
        seq![home_icon(icon, "iphone"@), home_icon(icon, "ipad"@)]
    } else {
        seq![icon]
    }
}

/// The images among the first `n` of an icon set.
pub open spec fn set_icons(
    platform: Seq<char>,
    infos: Seq<Json>,
    n: nat,
    set: Item,
    dir: Seq<char>,
) -> Seq<IconModel>
    decreases n,
{
    if n == 0 {
        Seq::empty()
    } else {
        let before = set_icons(platform, infos, (n - 1) as nat, set, dir);
        match set_icon(infos[n - 1], set, dir) {
            Some(icon) => before + icon_uses(platform, icon),
            None => before,
        }
    }
}

/// The images of the icon set that was asked for, with their idioms; none without
/// one.
pub open spec fn catalog_set_icons(s: Settings, root: Option<Item>, path: Seq<char>) -> Result<
    Seq<IconModel>,
    CatalogError,
> {
    match (s.app_icon, root) {
        (Some(name), Some(item)) => {
            let folder = name + ".appiconset"@;
            match item_at(item, folder) {
                None => Ok(Seq::empty()),
                Some(set) => match item_at(set, "Contents.json"@) {
                    None => Ok(Seq::empty()),
                    Some(file) => match file_json(file) {
                        None => Err(CatalogError::BadJson),
                        Some(contents) => {
                            let infos = items_of(contents, "images"@);
                            Ok(set_icons(s.platform, infos, infos.len(), set, joined(path, folder)))
                        },
                    },
                },
            }
        },
        _ => Ok(Seq::empty()),
    }
}

/// Images of an icon set, with texts.
pub open spec fn set_icon_views(icons: Seq<IconImage>) -> Seq<IconModel> {
    Seq::new(icons.len(), |i: int| icons[i]@)
}

fn find_set_icon(info: &Json, set: &Item, dir: &str) -> (icon: Option<IconImage>)
    ensures
        match icon {
            Some(i) => set_icon(*info, *set, dir@) == Some(i@),
            None => set_icon(*info, *set, dir@) is None,
        },
{
    let filename = match info.get_text("filename") {
        None => {
            return None;
        },
        Some(filename) => filename,
    };
    match set.find(filename) {
        None => {
            return None;
        },
        Some(_) => {},
    }
    let scale: u32 = parse_scale(info);
    match parse_point_width(info) {
        None => None,
        Some(point_w) => {
            let path = join(dir, filename);
            let suffix = match find_suffix(path.as_str()) {
                Some(s) => Some(s.to_owned()),
                None => None,
            };
            let idiom = info.get_text_or("idiom", "universal").to_owned();
            Some(IconImage { path, extension: suffix, idiom, point_w, scale })
        },
    }
}

/// An image for a device, in its home screen size.
fn make_home_icon(icon: &IconImage, idiom: &str) -> (out: IconImage)
    requires
        primary_size(idiom@) is Some,
    ensures
        out@ == home_icon(icon@, idiom@),
{
    let point_w: u32 = match ios_primary_size(idiom) {
        Some(size) => size,
        None => 0,
    };
    let suffix = match &icon.extension {
        Some(e) => Some(e.as_str().to_owned()),
        None => None,
    };
    IconImage {
        path: icon.path.as_str().to_owned(),
        extension: suffix,
        idiom: idiom.to_owned(),
        point_w,
        scale: 2,
    }
}

impl AssetCatalog {
    /// Adds an image for the devices of the platform.
    fn use_icon(&self, icons: &mut Vec<IconImage>, icon: IconImage)
        ensures
            set_icon_views(final(icons)@) == set_icon_views(old(icons)@) + icon_uses(
                self.settings().platform,
                icon@,
            ),
    {
        if is_ios_platform(self.platform.as_str()) && same_text(icon.idiom.as_str(), "universal") {
            proof {
                reveal_strlit("iphone");
                reveal_strlit("ipad");
                assert("iphone"@.len() != "ipad"@.len());
            }
            icons.push(make_home_icon(&icon, "iphone"));
            icons.push(make_home_icon(&icon, "ipad"));
        } else {
            icons.push(icon);
        }
        assert(set_icon_views(icons@) =~= set_icon_views(old(icons)@) + icon_uses(
            self.settings().platform,
            icon@,
        ));
    }

    /// The images of the icon set that was asked for, with their idioms.
    pub fn get_appicon_images(&self, root: Option<&Item>) -> (icons: Result<
        Vec<IconImage>,
        CatalogError,
    >)
        ensures
            match icons {
                Ok(list) => catalog_set_icons(self.settings(), item_view(root), self.place())
                    == Ok::<Seq<IconModel>, CatalogError>(set_icon_views(list@)),
                Err(e) => catalog_set_icons(self.settings(), item_view(root), self.place())
                    == Err::<Seq<IconModel>, CatalogError>(e),
            },
    {
        let mut icons: Vec<IconImage> = Vec::new();
        assert(set_icon_views(icons@) =~= Seq::empty());
        let (folder, item) = match (&self.app_icon, root) {
            (Some(name), Some(item)) => (concat(name.as_str(), ".appiconset"), item),
            _ => {
                return Ok(icons);
            },
        };
        let set = match item.find(folder.as_str()) {
            None => {
                return Ok(icons);
            },
            Some(set) => set,
        };
        let contents = match set.find("Contents.json") {
            None => {
                return Ok(icons);
            },
            Some(file) => match read_json(file) {
                None => {
                    return Err(CatalogError::BadJson);
                },
                Some(contents) => contents,
            },
        };
        let dir = join(self.path.as_str(), folder.as_str());
        match contents.get_list("images") {
            None => {},
            Some(infos) => {
                let mut i: usize = 0;
                while i < infos.len()
                    invariant
                        i <= infos@.len(),
                        set_icon_views(icons@) == set_icons(
                            self.settings().platform,
                            infos@,
                            i as nat,
                            *set,
                            dir@,
                        ),
                    decreases infos.len() - i,
                {
                    match find_set_icon(&infos[i], set, dir.as_str()) {
                        Some(icon) => {
                            self.use_icon(&mut icons, icon);
                        },
                        None => {},
                    }
                    i = i + 1;
                }
            },
        }
        Ok(icons)
    }

    /// The JPEG images that are copied: the names of their sets, and where they are.
    pub fn get_copies(&self) -> (pairs: &Vec<(String, String)>)
        ensures
            text_pairs(pairs@) == self.copies(),
    {
        &self.loose_jpegs
    }
}

} // verus!
