//! What the renditions of a set hold of its files and of its `Contents.json`.

use vstd::prelude::*;

use crate::bytes::{be32, read_le32};
use crate::catalog::{
    color_set, data_stored, file_data, file_json, image_set, image_wanted, jpeg_stored, loaded_file,
    pdf_stored, set_color, set_colors, set_data, set_datum, set_image, set_images, svg_stored,
    Gathered, Settings,
};
use crate::compress::{lzfse_stream, LZFSE_SLACK};
use crate::csi::{
    color_data, data_tlv, jpeg_size, metrics_tlv, opacity_tlv, orientation_tlv, raw_data,
    slices_tlv, svg_data,
};
use crate::csi_laws::{
    body_of, color_renditions_read_back, colors_read_back, drawings_read_back, headers_read_back,
    lemma_jpeg_tags, lemma_parts_told, lemma_plain_tags, raw_data_read_back, read_le64, spells,
    tags_of, tell_opacity, tell_size, tells_color, tells_image, tells_name,
};
use crate::entries::{
    appearance_of, colorspace_named, direction_of, idiom_of, kind_of, rendering_intent, scale_of,
};
use crate::facets::{has_name, name_at, with_facet, Facet};
use crate::files::{item_at, joined, Item};
use crate::json::{items_of, member, text_member, text_or, Json};
use crate::naming::value_of;
use crate::rendition::RenditionModel;
use crate::svg::svg_size;

verus! {

/// Whether a list begins with another.
pub open spec fn begins_with<T>(list: Seq<T>, start: Seq<T>) -> bool {
    &&& start.len() <= list.len()
    &&& forall|i: int| 0 <= i < start.len() ==> #[trigger] list[i] == start[i]
}

/// The text under a key, or another one.
pub open spec fn text_under(value: Json, key: Seq<char>, other: Seq<char>) -> Seq<char> {
    match member(value, key) {
        Some(Json::Text(text)) => text@,
        _ => other,
    }
}

/// Whether the data of a color hold the numbers that its components read as: red,
/// green, blue and alpha, in this order.
#[verifier::opaque]
pub open spec fn holds_components<C: Fn(&str) -> u64>(
    data: Seq<u8>,
    component: C,
    components: Json,
) -> bool {
    &&& data.len() == 48
    &&& read_le32(data, 12) == 4
    &&& read_le64(data, 16) == value_of(component, text_under(components, "red"@, "0"@))
    &&& read_le64(data, 24) == value_of(component, text_under(components, "green"@, "0"@))
    &&& read_le64(data, 32) == value_of(component, text_under(components, "blue"@, "0"@))
    &&& read_le64(data, 40) == value_of(component, text_under(components, "alpha"@, "1"@))
}

/// The number of a color space.
pub open spec fn is_space(number: nat, name: Seq<char>) -> bool {
    &&& number == 3 <==> name == "display-p3"@
    &&& number == 4 <==> name == "extended-srgb"@
    &&& number == 7 <==> name == "extended-linear-srgb"@
    &&& number == 2 <==> name == "gray-gamma-22"@
    &&& number == 1 || number == 2 || number == 3 || number == 4 || number == 7
}

/// Each color space has its number; unknown ones count as sRGB.
pub proof fn color_spaces_have_numbers(name: Seq<char>)
    ensures
        is_space(colorspace_named(name) as nat, name),
{
    reveal_strlit("display-p3");
    reveal_strlit("extended-srgb");
    reveal_strlit("extended-linear-srgb");
    reveal_strlit("gray-gamma-22");
    assert("display-p3"@.len() == 10 && "extended-srgb"@.len() == 13);
    assert("extended-linear-srgb"@.len() == 20 && "gray-gamma-22"@.len() == 13);
    assert("extended-srgb"@[0] == 'e' && "gray-gamma-22"@[0] == 'g');
}

/// Whether a rendition is that of a color: a color under the identifier of its set,
/// for its appearance, whose data tell its space and its components.
pub open spec fn holds_color<C: Fn(&str) -> u64>(
    r: RenditionModel,
    component: C,
    entry: Json,
    color: Json,
    components: Json,
    name: Seq<char>,
    identifier: u16,
) -> bool {
    &&& r.identifier == identifier
    &&& r.element == 85
    &&& r.part == 217
    &&& r.layout == 1009
    &&& r.appearance == appearance_of(entry)
    &&& match r.csi_override {
        Some(stored) => {
            &&& tells_name(stored, 1009, name)
            &&& spells(body_of(stored), 0, 0x52, 0x4c, 0x4f, 0x43)
            &&& is_space(
                read_le32(body_of(stored), 8),
                text_under(color, "color-space"@, "srgb"@),
            )
            &&& holds_components(body_of(stored), component, components)
        },
        None => false,
    }
}

/// A color of a color set is stored with the components that its entry gives.
pub proof fn colors_are_stored<C: Fn(&str) -> u64>(
    s: Settings,
    component: C,
    g: Gathered,
    entry: Json,
    color: Json,
    components: Json,
    name: Seq<char>,
    identifier: u16,
)
    requires
        member(entry, "color"@) == Some(color),
        member(color, "components"@) == Some(components),
        !(components is Null),
    ensures
        ({
            let out = set_color(s, component, g, entry, name, identifier);
            &&& out.renditions.len() == g.renditions.len() + 1
            &&& begins_with(out.renditions, g.renditions)
            &&& holds_color(
                out.renditions.last(),
                component,
                entry,
                color,
                components,
                name,
                identifier,
            )
        }),
{
    let space = colorspace_named(text_or(color, "color-space"@, "srgb"@));
    let values = seq![
        value_of(component, text_or(components, "red"@, "0"@)),
        value_of(component, text_or(components, "green"@, "0"@)),
        value_of(component, text_or(components, "blue"@, "0"@)),
        value_of(component, text_or(components, "alpha"@, "1"@)),
    ];
    let data = color_data(space & 0xff, values);
    color_spaces_have_numbers(text_or(color, "color-space"@, "srgb"@));
    assert(space & 0xff == space) by (bit_vector)
        requires
            space <= 255,
    ;
    colors_read_back(space & 0xff, values);
    assert(values.len() == 4);
    lemma_color_data(data, component, components, values, space);
    color_renditions_read_back(1009, name, data);
}

proof fn lemma_color_data<C: Fn(&str) -> u64>(
    data: Seq<u8>,
    component: C,
    components: Json,
    values: Seq<u64>,
    space: u32,
)
    requires
        tells_color(data, space, 4),
        values.len() == 4,
        forall|i: int| 0 <= i < 4 ==> read_le64(data, 16 + 8 * i) == #[trigger] values[i],
        values[0] == value_of(component, text_under(components, "red"@, "0"@)),
        values[1] == value_of(component, text_under(components, "green"@, "0"@)),
        values[2] == value_of(component, text_under(components, "blue"@, "0"@)),
        values[3] == value_of(component, text_under(components, "alpha"@, "1"@)),
    ensures
        data.len() == 48,
        spells(data, 0, 0x52, 0x4c, 0x4f, 0x43),
        read_le32(data, 8) == space,
        holds_components(data, component, components),
{
    reveal(holds_components);
    reveal(tells_color);
    assert(read_le64(data, 16 + 8 * 0int) == values[0]);
    assert(read_le64(data, 16 + 8 * 1int) == values[1]);
    assert(read_le64(data, 16 + 8 * 2int) == values[2]);
    assert(read_le64(data, 16 + 8 * 3int) == values[3]);
}

/// An entry without components stores nothing.
pub proof fn colors_without_components_are_skipped<C: Fn(&str) -> u64>(
    s: Settings,
    component: C,
    g: Gathered,
    entry: Json,
    name: Seq<char>,
    identifier: u16,
)
    requires
        match member(entry, "color"@) {
            Some(color) => match member(color, "components"@) {
                Some(components) => components is Null,
                None => true,
            },
            None => true,
        },
    ensures
        set_color(s, component, g, entry, name, identifier) == g,
{
}

proof fn lemma_colors_extend<C: Fn(&str) -> u64>(
    s: Settings,
    component: C,
    g: Gathered,
    colors: Seq<Json>,
    m: nat,
    n: nat,
    name: Seq<char>,
    identifier: u16,
)
    requires
        m <= n,
    ensures
        begins_with(
            set_colors(s, component, g, colors, n, name, identifier).renditions,
            set_colors(s, component, g, colors, m, name, identifier).renditions,
        ),
    decreases n,
{
    if m < n {
        lemma_colors_extend(s, component, g, colors, m, (n - 1) as nat, name, identifier);
    }
}

/// Every color of a color set whose entry has components is stored, among the
/// renditions that the set adds, with the components of its entry; the set has its
/// name.
pub proof fn color_sets_store_their_colors<H: Fn(&str) -> u16, C: Fn(&str) -> u64>(
    s: Settings,
    hash: H,
    component: C,
    g: Gathered,
    set: Item,
    file: Item,
    contents: Json,
    name: Seq<char>,
    namespace: Seq<char>,
    i: int,
    color: Json,
    components: Json,
)
    requires
        item_at(set, "Contents.json"@) == Some(file),
        file_json(file) == Some(contents),
        0 <= i < items_of(contents, "colors"@).len(),
        member(items_of(contents, "colors"@)[i], "color"@) == Some(color),
        member(color, "components"@) == Some(components),
        !(components is Null),
    ensures
        ({
            let out = color_set(s, hash, component, g, set, name, namespace);
            let identifier = value_of(hash, namespace + name);
            &&& out.error is None
            &&& begins_with(out.state.renditions, g.renditions)
            &&& names(out.state.facets, namespace + name, 85, Some(217), identifier)
            &&& exists|k: int|
                g.renditions.len() <= k < out.state.renditions.len() && #[trigger] holds_color(
                    out.state.renditions[k],
                    component,
                    items_of(contents, "colors"@)[i],
                    color,
                    components,
                    name,
                    identifier,
                )
        }),
{
    let colors = items_of(contents, "colors"@);
    let identifier = value_of(hash, namespace + name);
    let before = set_colors(s, component, g, colors, i as nat, name, identifier);
    let after = set_colors(s, component, g, colors, (i + 1) as nat, name, identifier);
    let last = set_colors(s, component, g, colors, colors.len(), name, identifier);
    colors_are_stored(s, component, before, colors[i], color, components, name, identifier);
    lemma_colors_extend(s, component, g, colors, 0, i as nat, name, identifier);
    lemma_colors_extend(s, component, g, colors, 0, colors.len(), name, identifier);
    lemma_colors_extend(
        s,
        component,
        g,
        colors,
        (i + 1) as nat,
        colors.len(),
        name,
        identifier,
    );
    let k = before.renditions.len() as int;
    assert(last.renditions[k] == after.renditions[k]);
    lemma_named(
        last.facets,
        namespace + name,
        Facet { element: 85, part: Some(217), identifier },
    );
    assert(holds_color(
        last.renditions[k],
        component,
        colors[i],
        color,
        components,
        name,
        identifier,
    ));
}

/// Whether a table gives a name an element, a part and an identifier.
pub open spec fn names(
    facets: Seq<(Seq<char>, Facet)>,
    name: Seq<char>,
    element: u16,
    part: Option<u16>,
    identifier: u16,
) -> bool {
    exists|i: int|
        0 <= i < facets.len() && (#[trigger] facets[i]).0 == name && facets[i].1.element == element
            && facets[i].1.part == part && facets[i].1.identifier == identifier
}

/// A name that is set is there.
pub proof fn lemma_named(facets: Seq<(Seq<char>, Facet)>, name: Seq<char>, facet: Facet)
    ensures
        names(
            with_facet(facets, name, facet),
            name,
            facet.element,
            facet.part,
            facet.identifier,
        ),
{
    let after = with_facet(facets, name, facet);
    if has_name(facets, name) {
        let at = name_at(facets, name);
        assert(0 <= at < facets.len());
        assert(after[at] == (name, facet));
    } else {
        assert(after[facets.len() as int] == (name, facet));
    }
}

/// Whether a stored rendition holds a file as it is.
#[verifier::opaque]
pub open spec fn holds_bytes(stored: Seq<u8>, data: Seq<u8>) -> bool {
    let body = body_of(stored);
    &&& spells(body, 0, 0x44, 0x57, 0x41, 0x52)
    &&& read_le32(body, 4) == 0
    &&& read_le32(body, 8) == data.len()
    &&& body.skip(12) == data
}

proof fn lemma_holds_bytes(stored: Seq<u8>, data: Seq<u8>)
    requires
        data.len() <= u32::MAX,
        body_of(stored) == raw_data(0, data),
    ensures
        holds_bytes(stored, data),
{
    reveal(holds_bytes);
    raw_data_read_back(0, data);
}

/// The four letters of a pixel format.
pub open spec fn four(a: u8, b: u8, c: u8, d: u8) -> Seq<u8> {
    seq![a, b, c, d]
}

proof fn lemma_letters()
    ensures
        be32(crate::csi::PIXELFMT_PDF) == four(0x20, 0x46, 0x44, 0x50),
        be32(crate::csi::PIXELFMT_SVG) == four(0x20, 0x47, 0x56, 0x53),
        be32(crate::csi::PIXELFMT_JPEG) == four(0x47, 0x45, 0x50, 0x4a),
        be32(crate::csi::PIXELFMT_DATA) == four(0x41, 0x54, 0x41, 0x44),
{
    assert(be32(crate::csi::PIXELFMT_PDF) =~= four(0x20, 0x46, 0x44, 0x50));
    assert(be32(crate::csi::PIXELFMT_SVG) =~= four(0x20, 0x47, 0x56, 0x53));
    assert(be32(crate::csi::PIXELFMT_JPEG) =~= four(0x47, 0x45, 0x50, 0x4a));
    assert(be32(crate::csi::PIXELFMT_DATA) =~= four(0x41, 0x54, 0x41, 0x44));
}

/// A PDF page is stored as it is, under its name, marked as a page.
pub proof fn pages_are_kept(filename: Seq<char>, data: Seq<u8>)
    requires
        12 + data.len() <= u32::MAX,
    ensures
        ({
            let stored = pdf_stored(filename, data);
            &&& tells_image(stored, 0, 0, 0, four(0x20, 0x46, 0x44, 0x50), 4, 0)
            &&& tells_name(stored, 9, filename)
            &&& tell_opacity(tags_of(stored), 0x3f80_0000)
            &&& holds_bytes(stored, data)
        }),
{
    lemma_letters();
    lemma_plain_tags(0x3f80_0000);
    let body = raw_data(0, data);
    headers_read_back(
        0,
        0,
        0,
        be32(crate::csi::PIXELFMT_PDF),
        9,
        filename,
        data_tlv(),
        body,
        4,
        0,
        1,
    );
    let stored = pdf_stored(filename, data);
    lemma_parts_told(stored, data_tlv(), body, 1);
    lemma_holds_bytes(stored, data);
}

/// A file of a data set is stored as it is, marked as data.
pub proof fn data_are_kept(data: Seq<u8>)
    requires
        12 + data.len() <= u32::MAX,
    ensures
        ({
            let stored = data_stored(data);
            &&& tells_image(stored, 0, 0, 0, four(0x41, 0x54, 0x41, 0x44), 0, 1)
            &&& tells_name(stored, 1000, "CoreStructuredImage"@)
            &&& tell_opacity(tags_of(stored), 0x3f80_0000)
            &&& holds_bytes(stored, data)
        }),
{
    lemma_letters();
    lemma_plain_tags(0x3f80_0000);
    let body = raw_data(0, data);
    headers_read_back(
        0,
        0,
        0,
        be32(crate::csi::PIXELFMT_DATA),
        1000,
        "CoreStructuredImage"@,
        data_tlv(),
        body,
        0,
        1,
        1,
    );
    let stored = data_stored(data);
    lemma_parts_told(stored, data_tlv(), body, 1);
    lemma_holds_bytes(stored, data);
}

/// A JPEG image is stored as it is, under its name, with its width and its height.
pub proof fn photos_are_kept(filename: Seq<char>, data: Seq<u8>)
    requires
        12 + data.len() <= u32::MAX,
        jpeg_size(data).0 <= u32::MAX,
        jpeg_size(data).1 <= u32::MAX,
    ensures
        ({
            let stored = jpeg_stored(filename, data);
            &&& tells_image(stored, 0, 0, 100, four(0x47, 0x45, 0x50, 0x4a), 16, 0)
            &&& tells_name(stored, 12, filename)
            &&& tell_size(tags_of(stored), jpeg_size(data).0, jpeg_size(data).1)
            &&& tell_opacity(tags_of(stored), 0x3f80_0000)
            &&& holds_bytes(stored, data)
        }),
{
    lemma_letters();
    let width = jpeg_size(data).0 as u32;
    let height = jpeg_size(data).1 as u32;
    let tags = slices_tlv(width, height) + metrics_tlv(width, height) + opacity_tlv(0x3f80_0000)
        + orientation_tlv(1);
    lemma_jpeg_tags(width, height);
    let body = raw_data(0, data);
    headers_read_back(
        0,
        0,
        100,
        be32(crate::csi::PIXELFMT_JPEG),
        12,
        filename,
        tags,
        body,
        16,
        0,
        1,
    );
    let stored = jpeg_stored(filename, data);
    lemma_parts_told(stored, tags, body, 1);
    lemma_holds_bytes(stored, data);
}

/// Whether a stored rendition holds a document: as it is, or as the shorter stream that
/// `lzfse` makes of it; a flag tells which.
#[verifier::opaque]
pub open spec fn holds_document(stored: Seq<u8>, data: Seq<u8>) -> bool {
    let body = body_of(stored);
    let stream = lzfse_stream(data, data.len() + 128);
    let shorter = stream is Some && stream->0.len() < data.len();
    &&& spells(body, 0, 0x44, 0x57, 0x41, 0x52)
    &&& read_le32(body, 8) == body.len() - 12
    &&& shorter ==> read_le32(body, 4) == 1 && body.skip(12) == stream->0
    &&& !shorter ==> read_le32(body, 4) == 0 && body.skip(12) == data
}

/// An SVG document is stored as it is, or as a shorter stream, under its name, marked as
/// a drawing.
pub proof fn documents_are_kept(filename: Seq<char>, data: Seq<u8>)
    requires
        12 + data.len() <= u32::MAX,
    ensures
        ({
            let stored = svg_stored(filename, data);
            &&& tells_image(stored, 0, 0, 0, four(0x20, 0x47, 0x56, 0x53), 4, 0)
            &&& tells_name(stored, 9, filename)
            &&& tell_opacity(tags_of(stored), 0x3f80_0000)
            &&& holds_document(stored, data)
        }),
{
    lemma_letters();
    lemma_plain_tags(0x3f80_0000);
    let stream = lzfse_stream(data, data.len() + LZFSE_SLACK as nat);
    let body = svg_data(data, stream);
    drawings_read_back(data, stream);
    headers_read_back(
        0,
        0,
        0,
        be32(crate::csi::PIXELFMT_SVG),
        9,
        filename,
        data_tlv(),
        body,
        4,
        0,
        1,
    );
    let stored = svg_stored(filename, data);
    lemma_parts_told(stored, data_tlv(), body, 1);
    reveal(holds_document);
}

/// Whether a rendition is that of a file of a data set.
pub open spec fn holds_datum(r: RenditionModel, data: Seq<u8>, identifier: u16) -> bool {
    &&& r.identifier == identifier
    &&& r.element == 85
    &&& r.part == 181
    &&& r.layout == 1000
    &&& match r.csi_override {
        Some(stored) => 12 + data.len() <= u32::MAX ==> holds_bytes(stored, data),
        None => false,
    }
}

/// A file of a data set is stored as it is, behind what was there.
pub proof fn data_files_are_stored(
    s: Settings,
    g: Gathered,
    entry: Json,
    set: Item,
    identifier: u16,
    filename: Seq<char>,
    item: Item,
    data: Seq<u8>,
)
    requires
        text_member(entry, "filename"@) == Some(filename),
        item_at(set, filename) == Some(item),
        file_data(item) == Some(data),
    ensures
        ({
            let out = set_datum(s, g, entry, set, identifier);
            &&& out.error is None
            &&& out.state.renditions.len() == g.renditions.len() + 1
            &&& begins_with(out.state.renditions, g.renditions)
            &&& holds_datum(out.state.renditions.last(), data, identifier)
        }),
{
    if 12 + data.len() <= u32::MAX {
        data_are_kept(data);
    }
}

proof fn lemma_data_extend(
    s: Settings,
    g: Gathered,
    list: Seq<Json>,
    m: nat,
    n: nat,
    set: Item,
    identifier: u16,
)
    requires
        m <= n,
    ensures
        begins_with(
            set_data(s, g, list, n, set, identifier).state.renditions,
            set_data(s, g, list, m, set, identifier).state.renditions,
        ),
        set_data(s, g, list, n, set, identifier).error is None ==> set_data(
            s,
            g,
            list,
            m,
            set,
            identifier,
        ).error is None,
    decreases n,
{
    if m < n {
        lemma_data_extend(s, g, list, m, (n - 1) as nat, set, identifier);
    }
}

/// Every file of a data set is stored as it is, unless reading the set fails.
pub proof fn data_sets_store_their_files(
    s: Settings,
    g: Gathered,
    list: Seq<Json>,
    set: Item,
    identifier: u16,
    i: int,
    filename: Seq<char>,
    item: Item,
    data: Seq<u8>,
)
    requires
        set_data(s, g, list, list.len(), set, identifier).error is None,
        0 <= i < list.len(),
        text_member(list[i], "filename"@) == Some(filename),
        item_at(set, filename) == Some(item),
        file_data(item) == Some(data),
    ensures
        ({
            let out = set_data(s, g, list, list.len(), set, identifier).state.renditions;
            &&& begins_with(out, g.renditions)
            &&& exists|k: int|
                g.renditions.len() <= k < out.len() && #[trigger] holds_datum(
                    out[k],
                    data,
                    identifier,
                )
        }),
{
    let before = set_data(s, g, list, i as nat, set, identifier);
    let after = set_data(s, g, list, (i + 1) as nat, set, identifier);
    let last = set_data(s, g, list, list.len(), set, identifier);
    lemma_data_extend(s, g, list, 0, i as nat, set, identifier);
    lemma_data_extend(s, g, list, 0, list.len(), set, identifier);
    lemma_data_extend(s, g, list, i as nat, list.len(), set, identifier);
    lemma_data_extend(s, g, list, (i + 1) as nat, list.len(), set, identifier);
    data_files_are_stored(s, before.state, list[i], set, identifier, filename, item, data);
    let k = before.state.renditions.len() as int;
    assert(last.state.renditions[k] == after.state.renditions[k]);
    assert(holds_datum(last.state.renditions[k], data, identifier));
}

/// Whether a rendition is for the device, the appearance and the writing direction that
/// an entry names.
pub open spec fn is_for(r: RenditionModel, s: Settings, info: Json) -> bool {
    &&& r.idiom == idiom_of(info, s.platform)
    &&& r.appearance == appearance_of(info)
    &&& r.direction == direction_of(info)
}

/// Whether a rendition is that of a file of an image set: a regular image under the
/// identifier of its set and the name of the file.
pub open spec fn is_of_file(
    r: RenditionModel,
    s: Settings,
    info: Json,
    filename: Seq<char>,
    identifier: u16,
) -> bool {
    &&& r.name == filename
    &&& r.identifier == identifier
    &&& r.element == 85
    &&& r.part == 181
    &&& is_for(r, s, info)
    &&& r.min_deploy == s.min_deploy
    &&& r.platform == s.platform
}

/// Whether a rendition holds an image file in pixels, in the scale of its entry and in
/// its language.
pub open spec fn holds_image(
    r: RenditionModel,
    s: Settings,
    info: Json,
    filename: Seq<char>,
    identifier: u16,
    intent: i32,
    image: (Seq<u8>, u32, u32, Seq<u8>),
) -> bool {
    &&& is_of_file(r, s, info, filename, identifier)
    &&& r.scale == scale_of(info) as u16
    &&& r.pixel_data == image.0
    &&& r.width == image.1
    &&& r.height == image.2
    &&& r.pixel_format == image.3
    &&& r.layout == 12
    &&& r.template_rendering_intent == intent
    &&& r.locale == text_under(info, "locale"@, ""@)
    &&& r.csi_override is None
}

/// An image file of an image set is stored in pixels, behind what was there.
pub proof fn bitmaps_are_stored<H: Fn(&str) -> u16>(
    s: Settings,
    hash: H,
    g: Gathered,
    info: Json,
    set: Item,
    dir: Seq<char>,
    name: Seq<char>,
    identifier: u16,
    intent: i32,
    filename: Seq<char>,
    item: Item,
    image: (Seq<u8>, u32, u32, Seq<u8>),
)
    requires
        text_member(info, "filename"@) == Some(filename),
        item_at(set, filename) == Some(item),
        image_wanted(s, info),
        kind_of(filename) is Bitmap,
        loaded_file(item, filename, s.force_bgra) == Ok::<
            (Seq<u8>, u32, u32, Seq<u8>),
            crate::catalog::CatalogError,
        >(image),
    ensures
        ({
            let out = set_image(s, hash, g, info, set, dir, name, identifier, intent);
            &&& out.error is None
            &&& out.state.renditions.len() == g.renditions.len() + 1
            &&& begins_with(out.state.renditions, g.renditions)
            &&& holds_image(
                out.state.renditions.last(),
                s,
                info,
                filename,
                identifier,
                intent,
                image,
            )
        }),
{
}

/// A PDF page of an image set is kept as it is, behind what was there.
pub proof fn pages_are_stored<H: Fn(&str) -> u16>(
    s: Settings,
    hash: H,
    g: Gathered,
    info: Json,
    set: Item,
    dir: Seq<char>,
    name: Seq<char>,
    identifier: u16,
    intent: i32,
    filename: Seq<char>,
    item: Item,
    data: Seq<u8>,
)
    requires
        text_member(info, "filename"@) == Some(filename),
        item_at(set, filename) == Some(item),
        image_wanted(s, info),
        kind_of(filename) is Pdf,
        file_data(item) == Some(data),
        12 + data.len() <= u32::MAX,
    ensures
        ({
            let out = set_image(s, hash, g, info, set, dir, name, identifier, intent);
            let r = out.state.renditions.last();
            &&& out.error is None
            &&& out.state.renditions.len() == g.renditions.len() + 1
            &&& begins_with(out.state.renditions, g.renditions)
            &&& is_of_file(r, s, info, filename, identifier)
            &&& r.layout == 9
            &&& r.csi_override matches Some(stored) && holds_bytes(stored, data) && tells_name(
                stored,
                9,
                filename,
            )
        }),
{
    pages_are_kept(filename, data);
}

/// A JPEG image of an image set is kept as it is where the deployment target reads
/// JPEG images from archives, with its width and its height; elsewhere it is to be
/// copied under the name of its set.
pub proof fn photos_are_stored<H: Fn(&str) -> u16>(
    s: Settings,
    hash: H,
    g: Gathered,
    info: Json,
    set: Item,
    dir: Seq<char>,
    name: Seq<char>,
    identifier: u16,
    intent: i32,
    filename: Seq<char>,
    item: Item,
    data: Seq<u8>,
)
    requires
        text_member(info, "filename"@) == Some(filename),
        item_at(set, filename) == Some(item),
        image_wanted(s, info),
        kind_of(filename) is Jpeg,
        file_data(item) == Some(data),
        12 + data.len() <= u32::MAX,
        jpeg_size(data).0 <= u32::MAX,
        jpeg_size(data).1 <= u32::MAX,
    ensures
        ({
            let out = set_image(s, hash, g, info, set, dir, name, identifier, intent);
            let r = out.state.renditions.last();
            &&& out.error is None
            &&& begins_with(out.state.renditions, g.renditions)
            &&& !s.jpeg_in_car ==> out.state.renditions == g.renditions && out.state.loose_jpegs
                == g.loose_jpegs.push((name, joined(dir, filename)))
            &&& s.jpeg_in_car ==> {
                &&& out.state.renditions.len() == g.renditions.len() + 1
                &&& is_of_file(r, s, info, filename, identifier)
                &&& r.scale == scale_of(info) as u16
                &&& r.layout == 12
                &&& r.csi_override matches Some(stored) && holds_bytes(stored, data) && tells_name(
                    stored,
                    12,
                    filename,
                ) && tell_size(tags_of(stored), jpeg_size(data).0, jpeg_size(data).1)
            }
        }),
{
    photos_are_kept(filename, data);
}

/// An SVG document of an image set is kept, as it is or as a stream, and is drawn in its
/// own size at both scales where documents are drawn; behind what was there.
pub proof fn documents_are_stored<H: Fn(&str) -> u16>(
    s: Settings,
    hash: H,
    g: Gathered,
    info: Json,
    set: Item,
    dir: Seq<char>,
    name: Seq<char>,
    identifier: u16,
    intent: i32,
    filename: Seq<char>,
    item: Item,
    data: Seq<u8>,
)
    requires
        text_member(info, "filename"@) == Some(filename),
        item_at(set, filename) == Some(item),
        image_wanted(s, info),
        kind_of(filename) is Svg,
        file_data(item) == Some(data),
        12 + data.len() <= u32::MAX,
        data.len() + 128 <= usize::MAX,
        set_image(s, hash, g, info, set, dir, name, identifier, intent).error is None,
    ensures
        ({
            let out = set_image(s, hash, g, info, set, dir, name, identifier, intent);
            let at = g.renditions.len() as int;
            let r = out.state.renditions[at];
            let size = svg_size(data);
            let is_drawn = s.draws_svg && size.0 > 0 && size.1 > 0;
            &&& begins_with(out.state.renditions, g.renditions)
            &&& is_of_file(r, s, info, filename, identifier)
            &&& r.layout == 9
            &&& r.csi_override matches Some(stored) && holds_document(stored, data) && tells_name(
                stored,
                9,
                filename,
            )
            &&& !is_drawn ==> out.state.renditions.len() == at + 1
            &&& is_drawn ==> {
                &&& out.state.renditions.len() == at + 3
                &&& is_drawing(out.state.renditions[at + 1], s, info, filename, identifier, size, 1)
                &&& is_drawing(out.state.renditions[at + 2], s, info, filename, identifier, size, 2)
            }
        }),
{
    documents_are_kept(filename, data);
}

/// Whether a rendition is a drawing of a document at a scale: that many times as wide
/// and high.
pub open spec fn is_drawing(
    r: RenditionModel,
    s: Settings,
    info: Json,
    filename: Seq<char>,
    identifier: u16,
    size: (u32, u32),
    scale: u32,
) -> bool {
    &&& is_of_file(r, s, info, filename, identifier)
    &&& r.scale == scale
    &&& r.width == size.0 * scale
    &&& r.height == size.1 * scale
    &&& r.is_svg_rasterization
    &&& r.csi_override is None
}

/// An entry that names no file, or one that is not there, or that is not wanted, adds
/// nothing.
pub proof fn unwanted_images_are_skipped<H: Fn(&str) -> u16>(
    s: Settings,
    hash: H,
    g: Gathered,
    info: Json,
    set: Item,
    dir: Seq<char>,
    name: Seq<char>,
    identifier: u16,
    intent: i32,
)
    requires
        match text_member(info, "filename"@) {
            Some(filename) => item_at(set, filename) is None || !image_wanted(s, info),
            None => true,
        },
    ensures
        set_image(s, hash, g, info, set, dir, name, identifier, intent).state == g,
        set_image(s, hash, g, info, set, dir, name, identifier, intent).error is None,
{
}

proof fn lemma_image_extends<H: Fn(&str) -> u16>(
    s: Settings,
    hash: H,
    g: Gathered,
    info: Json,
    set: Item,
    dir: Seq<char>,
    name: Seq<char>,
    identifier: u16,
    intent: i32,
)
    ensures
        begins_with(
            set_image(s, hash, g, info, set, dir, name, identifier, intent).state.renditions,
            g.renditions,
        ),
{
}

proof fn lemma_images_extend<H: Fn(&str) -> u16>(
    s: Settings,
    hash: H,
    g: Gathered,
    infos: Seq<Json>,
    m: nat,
    n: nat,
    set: Item,
    dir: Seq<char>,
    name: Seq<char>,
    identifier: u16,
    intent: i32,
)
    requires
        m <= n,
    ensures
        begins_with(
            set_images(
                s,
                hash,
                g,
                infos,
                n,
                set,
                dir,
                name,
                identifier,
                intent,
            ).state.renditions,
            set_images(
                s,
                hash,
                g,
                infos,
                m,
                set,
                dir,
                name,
                identifier,
                intent,
            ).state.renditions,
        ),
        set_images(
            s,
            hash,
            g,
            infos,
            n,
            set,
            dir,
            name,
            identifier,
            intent,
        ).error is None ==> set_images(
            s,
            hash,
            g,
            infos,
            m,
            set,
            dir,
            name,
            identifier,
            intent,
        ).error is None,
    decreases n,
{
    if m < n {
        lemma_images_extend(
            s,
            hash,
            g,
            infos,
            m,
            (n - 1) as nat,
            set,
            dir,
            name,
            identifier,
            intent,
        );
        let before = set_images(
            s,
            hash,
            g,
            infos,
            (n - 1) as nat,
            set,
            dir,
            name,
            identifier,
            intent,
        );
        lemma_image_extends(
            s,
            hash,
            before.state,
            infos[n - 1],
            set,
            dir,
            name,
            identifier,
            intent,
        );
    }
}

/// Every image file of an image set that is wanted is stored in pixels, unless reading
/// the set fails, and the set has its name.
pub proof fn image_sets_store_their_images<H: Fn(&str) -> u16>(
    s: Settings,
    hash: H,
    g: Gathered,
    set: Item,
    file: Item,
    contents: Json,
    dir: Seq<char>,
    name: Seq<char>,
    namespace: Seq<char>,
    i: int,
    filename: Seq<char>,
    item: Item,
    image: (Seq<u8>, u32, u32, Seq<u8>),
)
    requires
        item_at(set, "Contents.json"@) == Some(file),
        file_json(file) == Some(contents),
        image_set(s, hash, g, set, dir, name, namespace).error is None,
        0 <= i < items_of(contents, "images"@).len(),
        text_member(items_of(contents, "images"@)[i], "filename"@) == Some(filename),
        item_at(set, filename) == Some(item),
        image_wanted(s, items_of(contents, "images"@)[i]),
        kind_of(filename) is Bitmap,
        loaded_file(item, filename, s.force_bgra) == Ok::<
            (Seq<u8>, u32, u32, Seq<u8>),
            crate::catalog::CatalogError,
        >(image),
    ensures
        ({
            let out = image_set(s, hash, g, set, dir, name, namespace).state;
            let identifier = value_of(hash, namespace + name);
            &&& begins_with(out.renditions, g.renditions)
            &&& names(out.facets, namespace + name, 85, Some(181), identifier)
            &&& exists|k: int|
                g.renditions.len() <= k < out.renditions.len() && #[trigger] holds_image(
                    out.renditions[k],
                    s,
                    items_of(contents, "images"@)[i],
                    filename,
                    identifier,
                    rendering_intent(contents),
                    image,
                )
        }),
{
    let infos = items_of(contents, "images"@);
    let identifier = value_of(hash, namespace + name);
    let intent = rendering_intent(contents);
    let n = infos.len();
    let before = set_images(s, hash, g, infos, i as nat, set, dir, name, identifier, intent);
    let last = set_images(s, hash, g, infos, n, set, dir, name, identifier, intent);
    lemma_images_extend(s, hash, g, infos, 0, i as nat, set, dir, name, identifier, intent);
    lemma_images_extend(s, hash, g, infos, 0, n, set, dir, name, identifier, intent);
    lemma_images_extend(s, hash, g, infos, i as nat, n, set, dir, name, identifier, intent);
    lemma_images_extend(s, hash, g, infos, (i + 1) as nat, n, set, dir, name, identifier, intent);
    bitmaps_are_stored(
        s,
        hash,
        before.state,
        infos[i],
        set,
        dir,
        name,
        identifier,
        intent,
        filename,
        item,
        image,
    );
    let k = before.state.renditions.len() as int;
    assert(holds_image(
        last.state.renditions[k],
        s,
        infos[i],
        filename,
        identifier,
        intent,
        image,
    ));
    lemma_named(
        last.state.facets,
        namespace + name,
        Facet { element: 85, part: Some(181), identifier },
    );
}

} // verus!
