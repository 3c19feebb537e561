//! Compiling a catalog: renditions and facets become the tables of an archive.

use vstd::prelude::*;
use vstd::utf8::encode_utf8;

use crate::archive::{archive_bytes, archive_contents, archive_fits, build_archive};
use crate::bitmapkeys::{bitmap_value, make_bitmap_value};
use crate::bom::{raw_contents, Contents};
use crate::bytes::{copy_of, le16, lemma_empty_prefix, pair_contents, same_bytes};
use crate::car::{
    appearance_entry, asked_dim1, asked_dim2, asked_direction, asked_variant, car_header,
    colorspace_of_format, compute_keyformat, compute_keyformat_ios, extended_metadata, facet_value,
    ios_columns, keyformat_block, mac_columns, make_carheader_full, make_extended_metadata,
    make_facetkey_value, make_keyformat, make_rendition_key, rendition_key, ELEMENT_PACKED,
    ELEMENT_UNIVERSAL, KeyformatRendition, LAYOUT_METADATA, LAYOUT_PACKED_IMAGE, PART_ICON,
    PART_REGULAR, PART_SPRITE_ATLAS, RenditionKeyParts,
};
use crate::compress::{compressed, gzip_stream, kcbc_chunks, rle_applies};
use crate::csi::{
    build_packed_asset_csi, build_packed_image_csi, build_sprite_atlas_metadata_csi, csi,
    no_format, packed_asset, packed_image_tlv, percent, sprites_tlv,
};
use crate::facets::{Facet, FacetTable};
use crate::formats::{bgra_name, is_bgra};
use crate::grouping::{
    are_group_keys, group_contents, group_for_packing, group_ok, inline_members, packed_groups,
    unpacked_members, PackGroup,
};
use crate::order::{
    arrange, arranged, first_keys, is_permutation, is_stable_order, sort_pairs, sort_texts,
    sorted_pairs, sorted_texts, stable_order, text_order, texts,
};
use crate::packer::{bytes_per_pixel, PackedImage};
use crate::platform::{
    deployment_platform_name, idiom_platform, ios_platform, is_idiom_platform, is_ios_platform,
    min_pack_version, packing_since, parse_version, platform_family, reaches, version_of,
    version_reaches,
};
use crate::rendition::Rendition;
use crate::sheets::{pack_sheets, sheet_ok, sheets_follow, Sheet};

verus! {

broadcast use lemma_empty_prefix;

/// Key columns that are all zero.
pub open spec fn no_parts() -> RenditionKeyParts {
    RenditionKeyParts {
        appearance: 0,
        unknown13: 0,
        element: 0,
        part: 0,
        size: 0,
        direction: 0,
        identifier: 0,
        dim1: 0,
        dim2: 0,
        layer: 0,
        scale: 0,
        idiom: 0,
        subtype: 0,
        variant: 0,
    }
}

/// The name of a sheet: sheets of sprite atlases have names of their own.
pub open spec fn sheet_name(sheet: Sheet) -> Seq<char> {
    if sheet.sprite_atlas_id != 0 {
        sheet.atlas.name_after("ZZZZExplicitlyPackedAsset-"@)
    } else {
        sheet.atlas.name_after("ZZZZPackedAsset-"@)
    }
}

/// The columns of the key of a sheet.
pub open spec fn sheet_parts(sheet: Sheet) -> RenditionKeyParts {
    RenditionKeyParts {
        element: ELEMENT_PACKED,
        part: PART_REGULAR,
        identifier: sheet.sprite_atlas_id,
        dim1: sheet.atlas.dim1 as u16,
        scale: sheet.scale,
        idiom: sheet.idiom,
        ..no_parts()
    }
}

/// Sheets of nothing but icons in color are not given to the deepmap encoder.
pub open spec fn forces_lzfse(sheet: Sheet) -> bool {
    sheet.atlas.pixel_format@ == bgra_name() && forall|i: int|
        0 <= i < sheet.atlas.images@.len() ==> (#[trigger] sheet.atlas.images@[i]).part == PART_ICON
}

pub open spec fn sheet_deepmap(sheet: Sheet) -> Option<Seq<u8>> {
    match sheet.deepmap {
        Some(d) => Some(d@),
        None => None,
    }
}

/// A sheet as it is stored.
pub open spec fn sheet_csi(sheet: Sheet, min_deploy: Seq<char>, platform: Seq<char>) -> Seq<u8> {
    let atlas = sheet.atlas;
    let pixels = atlas.pixel_data@;
    packed_asset(
        sheet_name(sheet),
        atlas.width,
        atlas.height,
        sheet.scale,
        atlas.pixel_format@,
        pixels,
        compressed(
            pixels,
            atlas.pixel_format@,
            atlas.width,
            atlas.height,
            min_deploy,
            platform,
            if forces_lzfse(sheet) {
                None
            } else {
                sheet_deepmap(sheet)
            },
            false,
            false,
            kcbc_chunks(pixels, atlas.height),
            gzip_stream(pixels),
        ),
    )
}

/// The columns of the key of an image in a sheet.
pub open spec fn image_parts(sheet: Sheet, image: PackedImage) -> RenditionKeyParts {
    RenditionKeyParts {
        element: ELEMENT_UNIVERSAL,
        part: image.part as u16,
        identifier: image.identifier as u16,
        dim2: image.dim2 as u16,
        appearance: image.appearance as u16,
        direction: image.direction as u16,
        scale: sheet.scale,
        idiom: image.idiom as u16,
        ..no_parts()
    }
}

/// The flags of an image in a sheet.
pub open spec fn image_flags(image: PackedImage) -> u32 {
    let flags = (image.template_rendering_intent as u32) << 2u32;
    if image.is_svg_rasterization {
        flags | 4
    } else {
        flags
    }
}

/// An image in a sheet as it is stored: a link to its place, counted from the
/// lower edge.
pub open spec fn image_csi(sheet: Sheet, image: PackedImage) -> Seq<u8> {
    let format = sheet.atlas.pixel_format@;
    csi(
        image.width,
        image.height,
        percent(sheet.scale),
        format,
        LAYOUT_PACKED_IMAGE,
        image.name@,
        packed_image_tlv(
            image.width,
            image.height,
            sheet.scale,
            image.x,
            (sheet.atlas.height - image.y - image.height) as u32,
            sheet.sprite_atlas_id,
            sheet.atlas.dim1 as u16,
            image.idiom as u16,
        ),
        Seq::empty(),
        image_flags(image),
        colorspace_of_format(format),
        1,
    )
}

/// The entry of an image in a sheet.
pub open spec fn image_entry(sheet: Sheet, image: PackedImage, keyformat: Seq<u16>) -> (
    Seq<u8>,
    Seq<u8>,
) {
    (rendition_key(image_parts(sheet, image), keyformat), image_csi(sheet, image))
}

/// The entries of a sheet: the sheet itself, then its images.
pub open spec fn sheet_entries(
    sheet: Sheet,
    keyformat: Seq<u16>,
    min_deploy: Seq<char>,
    platform: Seq<char>,
) -> Seq<(Seq<u8>, Seq<u8>)> {
    seq![
        (rendition_key(sheet_parts(sheet), keyformat), sheet_csi(sheet, min_deploy, platform)),
    ] + Seq::new(
        sheet.atlas.images@.len(),
        |i: int| image_entry(sheet, sheet.atlas.images@[i], keyformat),
    )
}

/// The entries of the first `n` sheets.
pub open spec fn entries_of_sheets(
    sheets: Seq<Sheet>,
    n: nat,
    keyformat: Seq<u16>,
    min_deploy: Seq<char>,
    platform: Seq<char>,
) -> Seq<(Seq<u8>, Seq<u8>)>
    decreases n,
{
    if n == 0 {
        Seq::empty()
    } else {
        entries_of_sheets(sheets, (n - 1) as nat, keyformat, min_deploy, platform) + sheet_entries(
            sheets[n - 1],
            keyformat,
            min_deploy,
            platform,
        )
    }
}

/// Whether a sheet is not given to the deepmap encoder.
fn check_forces_lzfse(sheet: &Sheet) -> (answer: bool)
    ensures
        answer == forces_lzfse(*sheet),
{
    if !is_bgra(&sheet.atlas.pixel_format) {
        return false;
    }
    let mut i: usize = 0;
    while i < sheet.atlas.images.len()
        invariant
            i <= sheet.atlas.images@.len(),
            forall|j: int|
                0 <= j < i ==> (#[trigger] sheet.atlas.images@[j]).part == PART_ICON,
        decreases sheet.atlas.images.len() - i,
    {
        if sheet.atlas.images[i].part != PART_ICON as u32 {
            return false;
        }
        i = i + 1;
    }
    true
}

/// The pixels of a sheet are complete and small.
proof fn lemma_sheet_pixels(sheet: Sheet)
    requires
        sheet_ok(sheet),
    ensures
        sheet.atlas.pixel_data@.len() <= 0x4_0000,
        sheet.atlas.height > 0 ==> rle_applies(
            sheet.atlas.pixel_data@,
            sheet.atlas.pixel_format@,
            sheet.atlas.width,
            sheet.atlas.height,
        ),
{
    let w = sheet.atlas.width as nat;
    let h = sheet.atlas.height as nat;
    let bpp = bytes_per_pixel(sheet.atlas.pixel_format);
    let bpr = sheet.atlas.row_bytes();
    let line = w * bpp;
    assert(line <= 262 * 4) by (nonlinear_arith)
        requires
            line == w * bpp,
            w <= 262,
            bpp <= 4,
    ;
    assert(bpr * h <= 1088 * 196) by (nonlinear_arith)
        requires
            bpr <= 1088,
            h <= 196,
    ;
    assert(h * line <= bpr * h) by (nonlinear_arith)
        requires
            line <= bpr,
            h >= 0,
    ;
    assert(w * (4 + bpp) <= 262 * 8) by (nonlinear_arith)
        requires
            w <= 262,
            bpp <= 4,
    ;
    let wide = w * (4 + bpp);
    assert(h * wide <= 196 * 2096) by (nonlinear_arith)
        requires
            0 <= wide <= 2096,
            h <= 196,
    ;
}

/// A sheet as it is stored.
pub(crate) fn make_sheet_csi(sheet: &Sheet, min_deploy: &str, platform: &str) -> (out: Vec<u8>)
    requires
        sheet_ok(*sheet),
    ensures
        out@ == sheet_csi(*sheet, min_deploy@, platform@),
{
    let name = if sheet.sprite_atlas_id != 0 {
        sheet.atlas.prefixed_name("ZZZZExplicitlyPackedAsset-")
    } else {
        sheet.atlas.prefixed_name("ZZZZPackedAsset-")
    };
    let deepmap: Option<&[u8]> = match &sheet.deepmap {
        Some(d) => Some(d.as_slice()),
        None => None,
    };
    proof {
        lemma_sheet_pixels(*sheet);
    }
    build_packed_asset_csi(
        name.as_str(),
        sheet.atlas.width,
        sheet.atlas.height,
        sheet.scale,
        &sheet.atlas.pixel_format,
        sheet.atlas.pixel_data.as_slice(),
        min_deploy,
        platform,
        check_forces_lzfse(sheet),
        deepmap,
    )
}

/// The entry of an image in a sheet.
fn make_image_entry(sheet: &Sheet, image: &PackedImage, keyformat: &[u16]) -> (entry: (
    Vec<u8>,
    Vec<u8>,
))
    requires
        image.y + image.height <= sheet.atlas.height,
    ensures
        (entry.0@, entry.1@) == image_entry(*sheet, *image, keyformat@),
{
    let mut parts = RenditionKeyParts::default();
    parts.element = ELEMENT_UNIVERSAL;
    parts.part = image.part as u16;
    parts.identifier = image.identifier as u16;
    parts.dim2 = image.dim2 as u16;
    parts.appearance = image.appearance as u16;
    parts.direction = image.direction as u16;
    parts.scale = sheet.scale;
    parts.idiom = image.idiom as u16;
    let key = make_rendition_key(parts, keyformat);
    let mut flags: u32 = (image.template_rendering_intent as u32) << 2u32;
    if image.is_svg_rasterization {
        flags = flags | 4;
    }
    let stored = build_packed_image_csi(
        image.name.as_str(),
        image.width,
        image.height,
        sheet.scale,
        &sheet.atlas.pixel_format,
        image.x,
        sheet.atlas.height - image.y - image.height,
        sheet.sprite_atlas_id,
        sheet.atlas.dim1 as u16,
        flags,
        image.idiom as u16,
    );
    (key, stored)
}

/// Appends the entries of a sheet.
fn add_sheet_entries(
    entries: &mut Vec<(Vec<u8>, Vec<u8>)>,
    sheet: &Sheet,
    keyformat: &[u16],
    min_deploy: &str,
    platform: &str,
)
    requires
        sheet_ok(*sheet),
    ensures
        pair_contents(final(entries)@) == pair_contents(old(entries)@) + sheet_entries(
            *sheet,
            keyformat@,
            min_deploy@,
            platform@,
        ),
{
    let ghost before = pair_contents(entries@);
    let ghost all = sheet_entries(*sheet, keyformat@, min_deploy@, platform@);
    let mut parts = RenditionKeyParts::default();
    parts.element = ELEMENT_PACKED;
    parts.part = PART_REGULAR;
    parts.identifier = sheet.sprite_atlas_id;
    parts.dim1 = sheet.atlas.dim1 as u16;
    parts.scale = sheet.scale;
    parts.idiom = sheet.idiom;
    let key = make_rendition_key(parts, keyformat);
    entries.push((key, make_sheet_csi(sheet, min_deploy, platform)));
    assert(pair_contents(entries@) =~= before + all.take(1));
    let mut i: usize = 0;
    while i < sheet.atlas.images.len()
        invariant
            i <= sheet.atlas.images@.len(),
            sheet_ok(*sheet),
            all == sheet_entries(*sheet, keyformat@, min_deploy@, platform@),
            pair_contents(entries@) == before + all.take(1 + i),
        decreases sheet.atlas.images.len() - i,
    {
        let ghost now = entries@;
        entries.push(make_image_entry(sheet, &sheet.atlas.images[i], keyformat));
        i = i + 1;
        assert(pair_contents(entries@) =~= before + all.take(1 + i)) by {
            assert(pair_contents(entries@) =~= pair_contents(now).push(
                image_entry(*sheet, sheet.atlas.images@[i - 1], keyformat@),
            ));
        }
    }
    assert(all.take(1 + i) =~= all);
}

/// The sprite atlas of the first rendition, from `from` on, that has an identifier
/// and belongs to a sprite atlas; 0 if there is none.
pub open spec fn sprite_atlas_of(rs: Seq<Rendition>, identifier: u16, from: int) -> u16
    decreases rs.len() - from,
{
    if from >= rs.len() {
        0
    } else if rs[from].sprite_atlas_id != 0 && rs[from].identifier == identifier {
        rs[from].sprite_atlas_id
    } else {
        sprite_atlas_of(rs, identifier, from + 1)
    }
}

/// The sprite atlases of the first `n` facets, in the order in which they first
/// come.
pub open spec fn sprite_atlases(
    facets: Seq<(Seq<char>, Facet)>,
    rs: Seq<Rendition>,
    n: nat,
) -> Seq<u16>
    decreases n,
{
    if n == 0 {
        Seq::empty()
    } else {
        let before = sprite_atlases(facets, rs, (n - 1) as nat);
        let id = sprite_atlas_of(rs, facets[n - 1].1.identifier, 0);
        if id == 0 || before.contains(id) {
            before
        } else {
            before.push(id)
        }
    }
}

/// The names of the sprites of an atlas among the first `n` facets.
pub open spec fn sprite_names(
    facets: Seq<(Seq<char>, Facet)>,
    rs: Seq<Rendition>,
    id: u16,
    n: nat,
) -> Seq<Seq<char>>
    decreases n,
{
    if n == 0 {
        Seq::empty()
    } else if sprite_atlas_of(rs, facets[n - 1].1.identifier, 0) == id {
        sprite_names(facets, rs, id, (n - 1) as nat).push(facets[n - 1].0)
    } else {
        sprite_names(facets, rs, id, (n - 1) as nat)
    }
}

/// The columns of the key of a sprite atlas.
pub open spec fn sprite_atlas_parts(id: u16) -> RenditionKeyParts {
    RenditionKeyParts {
        element: ELEMENT_PACKED,
        part: PART_SPRITE_ATLAS,
        identifier: id,
        scale: 1,
        ..no_parts()
    }
}

/// A sprite atlas as it is stored.
pub open spec fn sprite_atlas_csi(names: Seq<Seq<char>>) -> Seq<u8> {
    csi(
        0,
        0,
        100,
        no_format(),
        LAYOUT_METADATA,
        "CoreStructuredImage"@,
        sprites_tlv(sorted_texts(names)),
        Seq::empty(),
        0,
        0,
        1,
    )
}

/// `entries` with those of the first `n` sprite atlases behind them; an atlas
/// whose key is there already is left out.
pub open spec fn with_sprite_atlases(
    entries: Seq<(Seq<u8>, Seq<u8>)>,
    ids: Seq<u16>,
    n: nat,
    facets: Seq<(Seq<char>, Facet)>,
    rs: Seq<Rendition>,
    keyformat: Seq<u16>,
) -> Seq<(Seq<u8>, Seq<u8>)>
    decreases n,
{
    if n == 0 {
        entries
    } else {
        let before = with_sprite_atlases(entries, ids, (n - 1) as nat, facets, rs, keyformat);
        let key = rendition_key(sprite_atlas_parts(ids[n - 1]), keyformat);
        if first_keys(before).contains(key) {
            before
        } else {
            before.push(
                (key, sprite_atlas_csi(sprite_names(facets, rs, ids[n - 1], facets.len()))),
            )
        }
    }
}

/// The sprite atlas of an identifier.
fn find_sprite_atlas(renditions: &[Rendition], identifier: u16) -> (id: u16)
    ensures
        id == sprite_atlas_of(renditions@, identifier, 0),
{
    let mut i: usize = 0;
    while i < renditions.len()
        invariant
            i <= renditions@.len(),
            sprite_atlas_of(renditions@, identifier, 0) == sprite_atlas_of(
                renditions@,
                identifier,
                i as int,
            ),
        decreases renditions.len() - i,
    {
        if renditions[i].sprite_atlas_id != 0 && renditions[i].identifier == identifier {
            return renditions[i].sprite_atlas_id;
        }
        i = i + 1;
    }
    0
}

/// Whether a number is in a list.
fn lists(ids: &Vec<u16>, id: u16) -> (answer: bool)
    ensures
        answer == ids@.contains(id),
{
    let mut i: usize = 0;
    while i < ids.len()
        invariant
            i <= ids@.len(),
            forall|j: int| 0 <= j < i ==> ids@[j] != id,
        decreases ids.len() - i,
    {
        if ids[i] == id {
            return true;
        }
        i = i + 1;
    }
    false
}

/// The sprite atlases of a catalog.
fn find_sprite_atlases(facets: &FacetTable, renditions: &[Rendition]) -> (ids: Vec<u16>)
    requires
        facets.wf(),
    ensures
        ids@ == sprite_atlases(facets@, renditions@, facets@.len()),
{
    let n: usize = facets.len();
    let mut ids: Vec<u16> = Vec::new();
    let mut i: usize = 0;
    while i < n
        invariant
            i <= n == facets@.len(),
            facets.wf(),
            ids@ == sprite_atlases(facets@, renditions@, i as nat),
        decreases n - i,
    {
        let id: u16 = find_sprite_atlas(renditions, facets.facet(i).identifier);
        if id != 0 && !lists(&ids, id) {
            ids.push(id);
        }
        i = i + 1;
    }
    ids
}

/// The names of the sprites of an atlas.
fn find_sprite_names(facets: &FacetTable, renditions: &[Rendition], id: u16) -> (names: Vec<String>)
    requires
        facets.wf(),
    ensures
        texts(names@) == sprite_names(facets@, renditions@, id, facets@.len()),
{
    let n: usize = facets.len();
    let mut names: Vec<String> = Vec::new();
    let mut i: usize = 0;
    assert(texts(names@) =~= sprite_names(facets@, renditions@, id, 0));
    while i < n
        invariant
            i <= n == facets@.len(),
            facets.wf(),
            texts(names@) == sprite_names(facets@, renditions@, id, i as nat),
        decreases n - i,
    {
        let ghost before = names@;
        if find_sprite_atlas(renditions, facets.facet(i).identifier) == id {
            names.push(facets.name(i).to_owned());
            assert(texts(names@) =~= texts(before).push(facets@[i as int].0));
        }
        i = i + 1;
    }
    names
}

/// Whether one of the entries has a key.
fn has_entry(entries: &Vec<(Vec<u8>, Vec<u8>)>, key: &Vec<u8>) -> (answer: bool)
    ensures
        answer == first_keys(pair_contents(entries@)).contains(key@),
{
    let ghost keys = first_keys(pair_contents(entries@));
    let mut i: usize = 0;
    while i < entries.len()
        invariant
            i <= entries@.len(),
            keys == first_keys(pair_contents(entries@)),
            forall|j: int| 0 <= j < i ==> keys[j] != key@,
        decreases entries.len() - i,
    {
        assert(keys[i as int] == entries@[i as int].0@);
        if same_bytes(entries[i].0.as_slice(), key.as_slice()) {
            return true;
        }
        i = i + 1;
    }
    false
}

/// Appends the entries of the sprite atlases.
fn add_sprite_atlases(
    entries: &mut Vec<(Vec<u8>, Vec<u8>)>,
    facets: &FacetTable,
    renditions: &[Rendition],
    keyformat: &[u16],
)
    requires
        facets.wf(),
    ensures
        ({
            let ids = sprite_atlases(facets@, renditions@, facets@.len());
            pair_contents(final(entries)@) == with_sprite_atlases(
                pair_contents(old(entries)@),
                ids,
                ids.len(),
                facets@,
                renditions@,
                keyformat@,
            )
        }),
{
    let ghost start = pair_contents(entries@);
    let ids = find_sprite_atlases(facets, renditions);
    let mut i: usize = 0;
    while i < ids.len()
        invariant
            i <= ids@.len(),
            facets.wf(),
            pair_contents(entries@) == with_sprite_atlases(
                start,
                ids@,
                i as nat,
                facets@,
                renditions@,
                keyformat@,
            ),
        decreases ids.len() - i,
    {
        let ghost before = entries@;
        let id: u16 = ids[i];
        let mut parts = RenditionKeyParts::default();
        parts.element = ELEMENT_PACKED;
        parts.part = PART_SPRITE_ATLAS;
        parts.identifier = id;
        parts.scale = 1;
        let key = make_rendition_key(parts, keyformat);
        if !has_entry(entries, &key) {
            let names = sort_texts(find_sprite_names(facets, renditions, id));
            let stored = build_sprite_atlas_metadata_csi(names.as_slice());
            entries.push((key, stored));
            assert(pair_contents(entries@) =~= pair_contents(before).push((key@, stored@)));
        }
        i = i + 1;
    }
}

/// The key of a rendition, and the rendition as it is stored.
#[verifier::opaque]
pub open spec fn stored_entry(r: Rendition) -> (Seq<u8>, Seq<u8>) {
    (rendition_key(r.key_parts(), r.keyformat@), r.stored())
}

/// The entries of the first `n` renditions that are stored on their own.
pub open spec fn inline_entries(rs: Seq<Rendition>, inline: Seq<usize>, n: nat) -> Seq<
    (Seq<u8>, Seq<u8>),
>
    decreases n,
{
    if n == 0 {
        Seq::empty()
    } else {
        inline_entries(rs, inline, (n - 1) as nat).push(stored_entry(rs[inline[n - 1] as int]))
    }
}

/// Whether a rendition can be stored.
pub open spec fn can_be_stored(r: Rendition) -> bool {
    r.csi_override is None && r.pixel_data@.len() > 0 ==> r.storable()
}

/// Appends the entries of the renditions that are stored on their own.
fn add_inline_entries(
    entries: &mut Vec<(Vec<u8>, Vec<u8>)>,
    renditions: &[Rendition],
    inline: &Vec<usize>,
)
    requires
        forall|i: int|
            0 <= i < inline@.len() ==> (#[trigger] inline@[i]) < renditions@.len() && can_be_stored(
                renditions@[inline@[i] as int],
            ),
    ensures
        pair_contents(final(entries)@) == pair_contents(old(entries)@) + inline_entries(
            renditions@,
            inline@,
            inline@.len(),
        ),
{
    let ghost start = pair_contents(entries@);
    let mut i: usize = 0;
    assert(start =~= start + inline_entries(renditions@, inline@, 0));
    while i < inline.len()
        invariant
            i <= inline@.len(),
            forall|i: int|
                0 <= i < inline@.len() ==> (#[trigger] inline@[i]) < renditions@.len()
                    && can_be_stored(renditions@[inline@[i] as int]),
            pair_contents(entries@) == start + inline_entries(renditions@, inline@, i as nat),
        decreases inline.len() - i,
    {
        let ghost before = entries@;
        let r = &renditions[inline[i]];
        let key = r.build_rendition_key();
        let stored = r.build_csi();
        entries.push((key, stored));
        proof {
            reveal(stored_entry);
            assert(stored_entry(*r) == (key@, stored@));
        }
        i = i + 1;
        assert(pair_contents(entries@) =~= pair_contents(before).push((key@, stored@)));
        assert(pair_contents(entries@) =~= start + inline_entries(
            renditions@,
            inline@,
            i as nat,
        ));
    }
}

/// The entries of a catalog: sheets and their images, sprite atlases, and the
/// renditions that are stored on their own; sorted by key.
pub open spec fn catalog_entries(
    rs: Seq<Rendition>,
    facets: Seq<(Seq<char>, Facet)>,
    sheets: Seq<Sheet>,
    inline: Seq<usize>,
    keyformat: Seq<u16>,
    min_deploy: Seq<char>,
    platform: Seq<char>,
) -> Seq<(Seq<u8>, Seq<u8>)> {
    let packed = entries_of_sheets(sheets, sheets.len(), keyformat, min_deploy, platform);
    let ids = sprite_atlases(facets, rs, facets.len());
    sorted_pairs(
        with_sprite_atlases(packed, ids, ids.len(), facets, rs, keyformat) + inline_entries(
            rs,
            inline,
            inline.len(),
        ),
    )
}

/// The entries of a catalog.
pub fn make_catalog_entries(
    renditions: &[Rendition],
    facets: &FacetTable,
    sheets: &[Sheet],
    inline: &Vec<usize>,
    keyformat: &[u16],
    min_deploy: &str,
    platform: &str,
) -> (entries: Vec<(Vec<u8>, Vec<u8>)>)
    requires
        facets.wf(),
        forall|i: int| 0 <= i < sheets@.len() ==> sheet_ok(#[trigger] sheets@[i]),
        forall|i: int|
            0 <= i < inline@.len() ==> (#[trigger] inline@[i]) < renditions@.len() && can_be_stored(
                renditions@[inline@[i] as int],
            ),
    ensures
        pair_contents(entries@) == catalog_entries(
            renditions@,
            facets@,
            sheets@,
            inline@,
            keyformat@,
            min_deploy@,
            platform@,
        ),
{
    let mut entries: Vec<(Vec<u8>, Vec<u8>)> = Vec::new();
    let mut i: usize = 0;
    assert(pair_contents(entries@) =~= entries_of_sheets(
        sheets@,
        0,
        keyformat@,
        min_deploy@,
        platform@,
    ));
    while i < sheets.len()
        invariant
            i <= sheets@.len(),
            forall|i: int| 0 <= i < sheets@.len() ==> sheet_ok(#[trigger] sheets@[i]),
            pair_contents(entries@) == entries_of_sheets(
                sheets@,
                i as nat,
                keyformat@,
                min_deploy@,
                platform@,
            ),
        decreases sheets.len() - i,
    {
        add_sheet_entries(&mut entries, &sheets[i], keyformat, min_deploy, platform);
        i = i + 1;
    }
    add_sprite_atlases(&mut entries, facets, renditions, keyformat);
    add_inline_entries(&mut entries, renditions, inline);
    sort_pairs(entries)
}

/// The names of facets.
pub open spec fn facet_names(facets: Seq<(Seq<char>, Facet)>) -> Seq<Seq<char>> {
    Seq::new(facets.len(), |i: int| facets[i].0)
}

/// The table of facets: each name and what it stands for, sorted by name.
pub open spec fn facet_entries(facets: Seq<(Seq<char>, Facet)>) -> Seq<(Seq<u8>, Seq<u8>)> {
    let order = crate::order::byte_order(crate::order::encodings(facet_names(facets)));
    Seq::new(
        order.len(),
        |i: int|
            {
                let entry = facets[order[i] as int];
                (
                    encode_utf8(entry.0),
                    facet_value(entry.1.element, entry.1.part, entry.1.identifier),
                )
            },
    )
}

/// The table of facets.
pub fn make_facet_entries(facets: &FacetTable) -> (entries: Vec<(Vec<u8>, Vec<u8>)>)
    requires
        facets.wf(),
    ensures
        pair_contents(entries@) == facet_entries(facets@),
{
    let n: usize = facets.len();
    let mut names: Vec<String> = Vec::new();
    let mut i: usize = 0;
    while i < n
        invariant
            i <= n == facets@.len(),
            facets.wf(),
            names@.len() == i,
            forall|j: int| 0 <= j < i ==> (#[trigger] names@[j])@ == facets@[j].0,
        decreases n - i,
    {
        names.push(facets.name(i).to_owned());
        i = i + 1;
    }
    assert(texts(names@) =~= facet_names(facets@));
    let order = text_order(&names);
    let ghost all = facet_entries(facets@);
    let mut entries: Vec<(Vec<u8>, Vec<u8>)> = Vec::new();
    let mut k: usize = 0;
    assert(pair_contents(entries@) =~= all.take(0));
    while k < order.len()
        invariant
            k <= order@.len() == n,
            n == facets@.len(),
            facets.wf(),
            is_permutation(order@, n as nat),
            order@ == crate::order::byte_order(
                crate::order::encodings(facet_names(facets@)),
            ),
            all == facet_entries(facets@),
            pair_contents(entries@) == all.take(k as int),
        decreases order.len() - k,
    {
        let at: usize = order[k];
        assert(order@[k as int] < n);
        let facet = facets.facet(at);
        let ghost before = entries@;
        let key = copy_of(facets.name(at).as_bytes());
        let value = make_facetkey_value(facet.element, facet.part, facet.identifier);
        entries.push((key, value));
        k = k + 1;
        assert(pair_contents(entries@) =~= pair_contents(before).push((key@, value@)));
        assert(all.take(k as int) =~= all.take(k - 1).push(all[k - 1]));
    }
    assert(all.take(k as int) =~= all);
    entries
}

/// The identifiers of facets, as sort keys.
pub open spec fn identifier_keys(facets: Seq<(Seq<char>, Facet)>) -> Seq<u64> {
    Seq::new(facets.len(), |i: int| facets[i].1.identifier as u64)
}

/// The order of facets by identifier.
pub open spec fn identifier_order(facets: Seq<(Seq<char>, Facet)>) -> Seq<usize> {
    choose|p: Seq<usize>| is_stable_order(identifier_keys(facets), p)
}

/// The bitmap keys of the first `n` facets in a list; facets without an
/// identifier have none.
pub open spec fn bitmap_entries(
    facets: Seq<(Seq<char>, Facet)>,
    n: nat,
    keys: Seq<Seq<u8>>,
    keyformat: Seq<u16>,
) -> Seq<(u32, Seq<u8>)>
    decreases n,
{
    if n == 0 {
        Seq::empty()
    } else {
        let before = bitmap_entries(facets, (n - 1) as nat, keys, keyformat);
        let id = facets[n - 1].1.identifier;
        if id == 0 {
            before
        } else {
            before.push((id as u32, bitmap_value(keys, keyformat, id)))
        }
    }
}

/// The table of bitmap keys of a catalog, sorted by identifier.
pub open spec fn catalog_bitmaps(
    facets: Seq<(Seq<char>, Facet)>,
    entries: Seq<(Seq<u8>, Seq<u8>)>,
    keyformat: Seq<u16>,
) -> Seq<(u32, Seq<u8>)> {
    bitmap_entries(
        arranged(facets, identifier_order(facets)),
        facets.len(),
        first_keys(entries),
        keyformat,
    )
}

/// The table of bitmap keys of a catalog.
pub fn build_bitmapkeys(
    facets: &FacetTable,
    rendition_entries: &[(Vec<u8>, Vec<u8>)],
    keyformat: &[u16],
) -> (bitmaps: Vec<(u32, Vec<u8>)>)
    requires
        facets.wf(),
        4 + 4 * keyformat@.len() <= u32::MAX,
    ensures
        raw_contents(bitmaps@) == catalog_bitmaps(
            facets@,
            pair_contents(rendition_entries@),
            keyformat@,
        ),
        bitmaps@.len() <= facets@.len(),
{
    let ghost keys = first_keys(pair_contents(rendition_entries@));
    let n: usize = facets.len();
    let mut ids: Vec<u64> = Vec::new();
    let mut i: usize = 0;
    while i < n
        invariant
            i <= n == facets@.len(),
            facets.wf(),
            ids@.len() == i,
            forall|j: int| 0 <= j < i ==> #[trigger] ids@[j] == facets@[j].1.identifier,
        decreases n - i,
    {
        ids.push(facets.facet(i).identifier as u64);
        i = i + 1;
    }
    assert(ids@ =~= identifier_keys(facets@));
    let order = stable_order(&ids);
    proof {
        crate::order::stable_order_is_unique(
            identifier_keys(facets@),
            order@,
            identifier_order(facets@),
        );
    }
    let ghost sorted = arranged(facets@, order@);
    let mut bitmaps: Vec<(u32, Vec<u8>)> = Vec::new();
    let mut k: usize = 0;
    assert(raw_contents(bitmaps@) =~= bitmap_entries(sorted, 0, keys, keyformat@));
    while k < order.len()
        invariant
            k <= order@.len() == n,
            n == facets@.len(),
            facets.wf(),
            is_permutation(order@, n as nat),
            sorted == arranged(facets@, order@),
            keys == first_keys(pair_contents(rendition_entries@)),
            4 + 4 * keyformat@.len() <= u32::MAX,
            raw_contents(bitmaps@) == bitmap_entries(sorted, k as nat, keys, keyformat@),
            bitmaps@.len() <= k,
        decreases order.len() - k,
    {
        let at: usize = order[k];
        assert(order@[k as int] < n);
        let id: u16 = facets.facet(at).identifier;
        let ghost before = bitmaps@;
        if id != 0 {
            let value = make_bitmap_value(rendition_entries, keyformat, id);
            bitmaps.push((id as u32, value));
            assert(raw_contents(bitmaps@) =~= raw_contents(before).push((id as u32, value@)));
        }
        k = k + 1;
    }
    bitmaps
}

/// Whether some rendition is made for an appearance.
pub open spec fn has_appearances(rs: Seq<Rendition>) -> bool {
    exists|i: int| 0 <= i < rs.len() && (#[trigger] rs[i]).appearance != 0
}

/// The table of appearances: platforms with idioms always have one, others only
/// where a rendition is made for an appearance.
pub open spec fn appearance_table(platform: Seq<char>, used: bool) -> Option<
    Seq<(Seq<u8>, Seq<u8>)>,
> {
    if idiom_platform(platform) {
        if used {
            Some(
                seq![
                    (encode_utf8("UIAppearanceAny"@), le16(0)),
                    (encode_utf8("UIAppearanceDark"@), le16(1)),
                ],
            )
        } else {
            Some(seq![(encode_utf8("UIAppearanceAny"@), le16(0))])
        }
    } else if used {
        Some(
            seq![
                (encode_utf8("NSAppearanceNameDarkAqua"@), le16(1)),
                (encode_utf8("NSAppearanceNameSystem"@), le16(0)),
            ],
        )
    } else {
        None
    }
}

fn uses_appearances(renditions: &[Rendition]) -> (used: bool)
    ensures
        used == has_appearances(renditions@),
{
    let mut i: usize = 0;
    while i < renditions.len()
        invariant
            i <= renditions@.len(),
            forall|j: int| 0 <= j < i ==> (#[trigger] renditions@[j]).appearance == 0,
        decreases renditions.len() - i,
    {
        if renditions[i].appearance != 0 {
            return true;
        }
        i = i + 1;
    }
    false
}

/// The table of appearances.
fn make_appearance_table(platform: &str, used: bool) -> (table: Option<Vec<(Vec<u8>, Vec<u8>)>>)
    ensures
        match table {
            Some(list) => appearance_table(platform@, used) == Some(pair_contents(list@)),
            None => appearance_table(platform@, used) is None,
        },
{
    let mut list: Vec<(Vec<u8>, Vec<u8>)> = Vec::new();
    if is_idiom_platform(platform) {
        list.push(appearance_entry("UIAppearanceAny", 0));
        if used {
            list.push(appearance_entry("UIAppearanceDark", 1));
        }
    } else if used {
        list.push(appearance_entry("NSAppearanceNameDarkAqua", 1));
        list.push(appearance_entry("NSAppearanceNameSystem", 0));
    } else {
        return None;
    }
    assert(pair_contents(list@) =~= appearance_table(platform@, used)->0);
    Some(list)
}

/// How keys are to be read: iOS keys carry an idiom.
pub open spec fn key_semantics(platform: Seq<char>) -> u32 {
    if ios_platform(platform) {
        2
    } else {
        1
    }
}

/// What the archive of a catalog holds.
pub open spec fn catalog_contents(
    entries: Seq<(Seq<u8>, Seq<u8>)>,
    facets: Seq<(Seq<char>, Facet)>,
    appearances: bool,
    keyformat: Seq<u16>,
    min_deploy: Seq<char>,
    platform: Seq<char>,
    coreui_version: u32,
) -> Contents {
    archive_contents(
        car_header(entries.len() as u32, coreui_version, key_semantics(platform)),
        2 * keyformat.len(),
        entries,
        facet_entries(facets),
        appearance_table(platform, appearances),
        keyformat_block(keyformat),
        extended_metadata(platform, min_deploy),
        catalog_bitmaps(facets, entries, keyformat),
    )
}

/// The archive of a catalog fits in memory.
pub open spec fn catalog_fits(
    entries: Seq<(Seq<u8>, Seq<u8>)>,
    facets: Seq<(Seq<char>, Facet)>,
    appearances: bool,
    keyformat: Seq<u16>,
    min_deploy: Seq<char>,
    platform: Seq<char>,
    coreui_version: u32,
) -> bool {
    archive_fits(
        car_header(entries.len() as u32, coreui_version, key_semantics(platform)),
        2 * keyformat.len(),
        entries,
        facet_entries(facets),
        appearance_table(platform, appearances),
        keyformat_block(keyformat),
        extended_metadata(platform, min_deploy),
        catalog_bitmaps(facets, entries, keyformat),
    )
}

/// The texts in the metadata of an archive fit their fields.
pub open spec fn texts_fit(min_deploy: Seq<char>, platform: Seq<char>) -> bool {
    &&& 260 + encode_utf8(min_deploy).len() <= 1028
    &&& 516 + encode_utf8(platform_family(platform)).len() <= 1028
}

/// The archive of a catalog with the given entries; `None` if it does not fit in
/// memory.
pub fn build_catalog_archive(
    entries: &[(Vec<u8>, Vec<u8>)],
    facets: &FacetTable,
    appearances: bool,
    keyformat: &[u16],
    min_deploy: &str,
    platform: &str,
    coreui_version: u32,
) -> (out: Option<Vec<u8>>)
    requires
        facets.wf(),
        4 + 4 * keyformat@.len() <= u32::MAX,
        texts_fit(min_deploy@, platform@),
    ensures
        ({
            let all = pair_contents(entries@);
            let fits = catalog_fits(
                all,
                facets@,
                appearances,
                keyformat@,
                min_deploy@,
                platform@,
                coreui_version,
            );
            match out {
                Some(file) => fits && file@ == archive_bytes(
                    catalog_contents(
                        all,
                        facets@,
                        appearances,
                        keyformat@,
                        min_deploy@,
                        platform@,
                        coreui_version,
                    ),
                ),
                None => !fits,
            }
        }),
{
    let semantics: u32 = if is_ios_platform(platform) {
        2
    } else {
        1
    };
    let header = make_carheader_full(entries.len() as u32, coreui_version, semantics);
    let facet_list = make_facet_entries(facets);
    let bitmaps = build_bitmapkeys(facets, entries, keyformat);
    let format_block = make_keyformat(keyformat);
    let metadata = make_extended_metadata(platform, min_deploy);
    let table = make_appearance_table(platform, appearances);
    let columns: usize = keyformat.len();
    match &table {
        Some(list) => build_archive(
            header,
            2 * columns,
            entries,
            facet_list.as_slice(),
            Some(list.as_slice()),
            format_block,
            metadata,
            bitmaps.as_slice(),
        ),
        None => build_archive(
            header,
            2 * columns,
            entries,
            facet_list.as_slice(),
            None,
            format_block,
            metadata,
            bitmaps.as_slice(),
        ),
    }
}

/// The rank of a group: groups are packed by scale, at each scale those in color
/// first.
pub open spec fn group_rank(group: PackGroup) -> u64 {
    (group.scale * 2 + if group.pixel_format@ == bgra_name() {
        0int
    } else {
        1int
    }) as u64
}

pub open spec fn group_ranks(groups: Seq<PackGroup>) -> Seq<u64> {
    Seq::new(groups.len(), |i: int| group_rank(groups[i]))
}

/// The numbers below `n`.
pub open spec fn all_below(n: nat) -> Seq<usize> {
    Seq::new(n, |i: int| i as usize)
}

/// Whether `groups` are the groups of renditions that are packed, in the order of
/// their ranks, and `inline` the renditions that are stored on their own.  Targets
/// that do not read atlases have all renditions stored on their own.
pub open spec fn is_split(
    rs: Seq<Rendition>,
    groups: Seq<PackGroup>,
    inline: Seq<usize>,
    min_deploy: Seq<char>,
    platform: Seq<char>,
) -> bool {
    if version_reaches(version_of(min_deploy), packing_since(platform)) {
        exists|keys: Seq<u128>, first: Seq<PackGroup>, order: Seq<usize>|
            {
                &&& #[trigger] are_group_keys(rs, keys)
                &&& group_contents(first) == packed_groups(rs, keys)
                &&& forall|g: int| 0 <= g < first.len() ==> group_ok(rs, #[trigger] first[g])
                &&& inline == inline_members(rs, rs.len()) + unpacked_members(rs, keys)
                &&& is_stable_order(group_ranks(first), order)
                &&& groups == #[trigger] arranged(first, order)
            }
    } else {
        groups.len() == 0 && inline == all_below(rs.len())
    }
}

/// How many scales there are among the first `n` groups.
pub open spec fn scale_count(groups: Seq<PackGroup>, n: nat) -> nat
    decreases n,
{
    if n == 0 {
        0
    } else if exists|i: int|
        0 <= i < n - 1 && (#[trigger] groups[i]).scale == groups[n - 1].scale {
        scale_count(groups, (n - 1) as nat)
    } else {
        scale_count(groups, (n - 1) as nat) + 1
    }
}

/// Whether some rendition has a direction, a dimension, a variant.
pub open spec fn some_direction(rs: Seq<Rendition>) -> bool {
    exists|i: int| 0 <= i < rs.len() && (#[trigger] rs[i]).direction != 0
}

pub open spec fn some_dim1(rs: Seq<Rendition>) -> bool {
    exists|i: int| 0 <= i < rs.len() && (#[trigger] rs[i]).dim1 != 0
}

pub open spec fn some_dim2(rs: Seq<Rendition>) -> bool {
    exists|i: int| 0 <= i < rs.len() && (#[trigger] rs[i]).dim2 != 0
}

pub open spec fn some_variant(rs: Seq<Rendition>) -> bool {
    exists|i: int| 0 <= i < rs.len() && (#[trigger] rs[i]).variant != 0
}

/// The columns of the keys of a catalog.
pub open spec fn catalog_columns(
    rs: Seq<Rendition>,
    platform: Seq<char>,
    force_dim1: bool,
) -> Seq<u16> {
    if idiom_platform(platform) {
        ios_columns(force_dim1 || some_dim1(rs), some_dim2(rs))
    } else {
        mac_columns(
            some_direction(rs),
            force_dim1 || some_dim1(rs),
            some_dim2(rs),
            some_variant(rs),
        )
    }
}

/// What renditions answer is what they hold.
pub proof fn lemma_answers(rs: Seq<Rendition>)
    ensures
        forall|used: bool| #[trigger] asked_direction(rs, used) ==> used == some_direction(rs),
        forall|used: bool| #[trigger] asked_dim1(rs, used) ==> used == some_dim1(rs),
        forall|used: bool| #[trigger] asked_dim2(rs, used) ==> used == some_dim2(rs),
        forall|used: bool| #[trigger] asked_variant(rs, used) ==> used == some_variant(rs),
{
    assert forall|used: bool| #[trigger] asked_direction(rs, used) implies used == some_direction(rs) by {
        if used {
            let (i, v) = choose|i: int, v: u32|
                0 <= i < rs.len() && v != 0 && #[trigger] call_ensures(
                    Rendition::direction,
                    (&rs[i],),
                    v,
                );
            assert(rs[i].direction == v);
        } else {
            assert forall|i: int| 0 <= i < rs.len() implies (#[trigger] rs[i]).direction == 0 by {
                assert(call_ensures(Rendition::direction, (&rs[i],), 0));
            }
        }
    }
    assert forall|used: bool| #[trigger] asked_dim1(rs, used) implies used == some_dim1(rs) by {
        if used {
            let (i, v) = choose|i: int, v: u32|
                0 <= i < rs.len() && v != 0 && #[trigger] call_ensures(
                    Rendition::dim1,
                    (&rs[i],),
                    v,
                );
            assert(rs[i].dim1 == v);
        } else {
            assert forall|i: int| 0 <= i < rs.len() implies (#[trigger] rs[i]).dim1 == 0 by {
                assert(call_ensures(Rendition::dim1, (&rs[i],), 0));
            }
        }
    }
    assert forall|used: bool| #[trigger] asked_dim2(rs, used) implies used == some_dim2(rs) by {
        if used {
            let (i, v) = choose|i: int, v: u32|
                0 <= i < rs.len() && v != 0 && #[trigger] call_ensures(
                    Rendition::dim2,
                    (&rs[i],),
                    v,
                );
            assert(rs[i].dim2 == v);
        } else {
            assert forall|i: int| 0 <= i < rs.len() implies (#[trigger] rs[i]).dim2 == 0 by {
                assert(call_ensures(Rendition::dim2, (&rs[i],), 0));
            }
        }
    }
    assert forall|used: bool| #[trigger] asked_variant(rs, used) implies used == some_variant(rs) by {
        if used {
            let (i, v) = choose|i: int, v: u32|
                0 <= i < rs.len() && v != 0 && #[trigger] call_ensures(
                    Rendition::variant,
                    (&rs[i],),
                    v,
                );
            assert(rs[i].variant == v);
        } else {
            assert forall|i: int| 0 <= i < rs.len() implies (#[trigger] rs[i]).variant == 0 by {
                assert(call_ensures(Rendition::variant, (&rs[i],), 0));
            }
        }
    }
}

/// The columns of the keys of a catalog.
fn choose_columns(renditions: &[Rendition], platform: &str, force_dim1: bool) -> (columns: Vec<u16>)
    ensures
        columns@ == catalog_columns(renditions@, platform@, force_dim1),
{
    proof {
        lemma_answers(renditions@);
    }
    if is_idiom_platform(platform) {
        compute_keyformat_ios(renditions, force_dim1)
    } else {
        compute_keyformat(renditions, force_dim1)
    }
}

/// How a catalog is going to be stored: its atlases, the renditions that are
/// stored on their own, and the columns of its keys.
pub struct Plan {
    pub sheets: Vec<Sheet>,
    pub inline: Vec<usize>,
    pub keyformat: Vec<u16>,
}

/// Whether `plan` is the plan of a catalog.  Atlases are told apart by the first
/// dimension where there are more of them than scales.
pub open spec fn is_plan(
    plan: Plan,
    rs: Seq<Rendition>,
    min_deploy: Seq<char>,
    platform: Seq<char>,
) -> bool {
    exists|groups: Seq<PackGroup>, bounds: Seq<int>|
        {
            &&& #[trigger] is_split(rs, groups, plan.inline@, min_deploy, platform)
            &&& #[trigger] sheets_follow(plan.sheets@, bounds, rs, groups)
            &&& plan.keyformat@ == catalog_columns(
                rs,
                platform,
                plan.sheets@.len() > scale_count(groups, groups.len()),
            )
        }
}

/// Renditions that are stored on their own are renditions.
proof fn lemma_inline_members(rs: Seq<Rendition>, n: nat)
    requires
        n <= rs.len() <= usize::MAX,
    ensures
        forall|i: int|
            0 <= i < inline_members(rs, n).len() ==> (#[trigger] inline_members(rs, n)[i]) < n,
    decreases n,
{
    if n > 0 {
        lemma_inline_members(rs, (n - 1) as nat);
        let before = inline_members(rs, (n - 1) as nat);
        assert forall|i: int| 0 <= i < inline_members(rs, n).len() implies (
        #[trigger] inline_members(rs, n)[i]) < n by {
            if i < before.len() {
                assert(inline_members(rs, n)[i] == before[i]);
            }
        }
    }
}

proof fn lemma_unpacked_members(rs: Seq<Rendition>, keys: Seq<u128>)
    requires
        rs.len() <= usize::MAX,
    ensures
        forall|i: int|
            0 <= i < unpacked_members(rs, keys).len() ==> (#[trigger] unpacked_members(
                rs,
                keys,
            )[i]) < rs.len(),
    decreases keys.len(),
{
    if keys.len() > 0 {
        let before = unpacked_members(rs, keys.drop_last());
        let members = crate::grouping::group_members(rs, keys.last(), rs.len());
        lemma_unpacked_members(rs, keys.drop_last());
        crate::grouping::lemma_group_members(rs, keys.last(), rs.len());
        assert forall|i: int| 0 <= i < unpacked_members(rs, keys).len() implies (
        #[trigger] unpacked_members(rs, keys)[i]) < rs.len() by {
            if i < before.len() {
                assert(unpacked_members(rs, keys)[i] == before[i]);
            } else {
                assert(unpacked_members(rs, keys)[i] == members[i - before.len()]);
            }
        }
    }
}

/// Splits renditions into groups in the order of their ranks, and those that are
/// stored on their own.
fn split_renditions(renditions: &[Rendition], min_deploy: &str, platform: &str) -> (split: (
    Vec<PackGroup>,
    Vec<usize>,
))
    ensures
        is_split(renditions@, split.0@, split.1@, min_deploy@, platform@),
        forall|g: int| 0 <= g < split.0@.len() ==> group_ok(renditions@, #[trigger] split.0@[g]),
        forall|i: int| 0 <= i < split.1@.len() ==> (#[trigger] split.1@[i]) < renditions@.len(),
{
    let ghost rs = renditions@;
    let n: usize = renditions.len();
    if reaches(parse_version(min_deploy), min_pack_version(platform)) {
        let (first, inline) = group_for_packing(renditions);
        let ghost found = first@;
        let ghost keys = choose|keys: Seq<u128>|
            {
                &&& #[trigger] are_group_keys(rs, keys)
                &&& group_contents(found) == packed_groups(rs, keys)
                &&& inline@ == inline_members(rs, rs.len()) + unpacked_members(rs, keys)
            };
        let mut ranks: Vec<u64> = Vec::new();
        let mut i: usize = 0;
        while i < first.len()
            invariant
                i <= first@.len(),
                ranks@.len() == i,
                forall|j: int| 0 <= j < i ==> #[trigger] ranks@[j] == group_rank(first@[j]),
            decreases first.len() - i,
        {
            let group = &first[i];
            let color: u64 = if is_bgra(&group.pixel_format) {
                0
            } else {
                1
            };
            ranks.push(group.scale as u64 * 2 + color);
            i = i + 1;
        }
        assert(ranks@ =~= group_ranks(first@));
        let order = stable_order(&ranks);
        let groups = arrange(first, &order);
        proof {
            assert(are_group_keys(rs, keys));
            assert(groups@ == arranged(found, order@));
            lemma_inline_members(rs, rs.len());
            lemma_unpacked_members(rs, keys);
            let a = inline_members(rs, rs.len());
            let b = unpacked_members(rs, keys);
            assert forall|i: int| 0 <= i < inline@.len() implies (#[trigger] inline@[i])
                < rs.len() by {
                if i < a.len() {
                    assert(inline@[i] == a[i]);
                } else {
                    assert(inline@[i] == b[i - a.len()]);
                }
            }
            assert forall|g: int| 0 <= g < groups@.len() implies group_ok(
                rs,
                #[trigger] groups@[g],
            ) by {
                assert(groups@[g] == found[order@[g] as int]);
            }
        }
        (groups, inline)
    } else {
        let mut inline: Vec<usize> = Vec::new();
        let mut i: usize = 0;
        while i < n
            invariant
                i <= n,
                inline@ == all_below(i as nat),
            decreases n - i,
        {
            inline.push(i);
            i = i + 1;
            assert(inline@ =~= all_below(i as nat));
        }
        (Vec::new(), inline)
    }
}

/// How many scales there are among groups.
fn count_scales(groups: &Vec<PackGroup>) -> (count: usize)
    ensures
        count == scale_count(groups@, groups@.len()),
{
    let mut count: usize = 0;
    let mut n: usize = 0;
    while n < groups.len()
        invariant
            n <= groups@.len(),
            count <= n,
            count == scale_count(groups@, n as nat),
        decreases groups.len() - n,
    {
        let mut seen = false;
        let mut i: usize = 0;
        while i < n
            invariant
                i <= n < groups@.len(),
                seen == (exists|j: int|
                    0 <= j < i && (#[trigger] groups@[j]).scale == groups@[n as int].scale),
            decreases n - i,
        {
            if groups[i].scale == groups[n].scale {
                seen = true;
            }
            i = i + 1;
        }
        if !seen {
            count = count + 1;
        }
        n = n + 1;
    }
    count
}

/// Plans how a catalog is stored.
pub fn plan_catalog(renditions: &[Rendition], min_deploy: &str, platform: &str) -> (plan: Plan)
    ensures
        is_plan(plan, renditions@, min_deploy@, platform@),
        forall|i: int| 0 <= i < plan.sheets@.len() ==> sheet_ok(#[trigger] plan.sheets@[i]),
        forall|i: int|
            0 <= i < plan.inline@.len() ==> (#[trigger] plan.inline@[i]) < renditions@.len(),
{
    let (groups, inline) = split_renditions(renditions, min_deploy, platform);
    let sheets = pack_sheets(renditions, &groups);
    let force_dim1 = sheets.len() > count_scales(&groups);
    let keyformat = choose_columns(renditions, platform, force_dim1);
    let plan = Plan { sheets, inline, keyformat };
    assert(is_split(renditions@, groups@, plan.inline@, min_deploy@, platform@));
    plan
}

/// Whether `after` is a rendition made ready for its catalog: it has the columns
/// of the catalog's keys, the deployment target and the platform; all else is as
/// it was.
pub open spec fn is_prepared(
    after: Rendition,
    before: Rendition,
    has_icon: bool,
    keyformat: Seq<u16>,
    min_deploy: Seq<char>,
    platform: Seq<char>,
) -> bool {
    &&& after.has_icon == has_icon
    &&& after.keyformat@ == keyformat
    &&& after.min_deploy@ == min_deploy
    &&& after.platform@ == platform
    &&& after == (Rendition {
        has_icon: after.has_icon,
        keyformat: after.keyformat,
        min_deploy: after.min_deploy,
        platform: after.platform,
        ..before
    })
}

/// Whether a list of renditions was made ready for its catalog.
pub open spec fn are_prepared(
    after: Seq<Rendition>,
    before: Seq<Rendition>,
    has_icon: bool,
    keyformat: Seq<u16>,
    min_deploy: Seq<char>,
    platform: Seq<char>,
) -> bool {
    &&& after.len() == before.len()
    &&& forall|i: int|
        0 <= i < before.len() ==> is_prepared(
            #[trigger] after[i],
            before[i],
            has_icon,
            keyformat,
            min_deploy,
            platform,
        )
}

/// Makes renditions ready for their catalog.
pub fn prepare_renditions(
    renditions: &mut Vec<Rendition>,
    has_icon: bool,
    keyformat: &Vec<u16>,
    min_deploy: &str,
    platform: &str,
)
    ensures
        are_prepared(
            final(renditions)@,
            old(renditions)@,
            has_icon,
            keyformat@,
            min_deploy@,
            platform@,
        ),
{
    let ghost before = renditions@;
    let mut i: usize = 0;
    while i < renditions.len()
        invariant
            i <= renditions@.len(),
            renditions@.len() == before.len(),
            forall|j: int|
                0 <= j < i ==> is_prepared(
                    #[trigger] renditions@[j],
                    before[j],
                    has_icon,
                    keyformat@,
                    min_deploy@,
                    platform@,
                ),
            forall|j: int| i <= j < before.len() ==> #[trigger] renditions@[j] == before[j],
        decreases renditions.len() - i,
    {
        let mut r = Rendition::default();
        core::mem::swap(&mut r, &mut renditions[i]);
        r.has_icon = has_icon;
        r.keyformat = vstd::slice::slice_to_vec(keyformat.as_slice());
        r.min_deploy = min_deploy.to_owned();
        r.platform = platform.to_owned();
        core::mem::swap(&mut r, &mut renditions[i]);
        i = i + 1;
    }
}

/// What comes of compiling a catalog.
pub enum Compiled {
    /// There is nothing to store.
    Nothing,
    /// The archive.
    Archive(Vec<u8>),
    /// The archive would not fit in memory.
    TooLarge,
}

/// Whether `out` is what comes of storing a catalog with a given plan.
pub open spec fn is_compiled(
    out: Compiled,
    rs: Seq<Rendition>,
    facets: Seq<(Seq<char>, Facet)>,
    plan: Plan,
    min_deploy: Seq<char>,
    platform: Seq<char>,
    coreui_version: u32,
) -> bool {
    let entries = catalog_entries(
        rs,
        facets,
        plan.sheets@,
        plan.inline@,
        plan.keyformat@,
        min_deploy,
        platform,
    );
    let used = has_appearances(rs);
    let fits = catalog_fits(
        entries,
        facets,
        used,
        plan.keyformat@,
        min_deploy,
        platform,
        coreui_version,
    );
    match out {
        Compiled::Nothing => entries.len() == 0,
        Compiled::Archive(file) => entries.len() > 0 && fits && file@ == archive_bytes(
            catalog_contents(
                entries,
                facets,
                used,
                plan.keyformat@,
                min_deploy,
                platform,
                coreui_version,
            ),
        ),
        Compiled::TooLarge => entries.len() > 0 && !fits,
    }
}

/// Stores a catalog with a given plan.
pub fn store_catalog(
    renditions: &[Rendition],
    facets: &FacetTable,
    plan: &Plan,
    min_deploy: &str,
    platform: &str,
    coreui_version: u32,
) -> (out: Compiled)
    requires
        facets.wf(),
        4 + 4 * plan.keyformat@.len() <= u32::MAX,
        texts_fit(min_deploy@, platform@),
        forall|i: int| 0 <= i < plan.sheets@.len() ==> sheet_ok(#[trigger] plan.sheets@[i]),
        forall|i: int|
            0 <= i < plan.inline@.len() ==> (#[trigger] plan.inline@[i]) < renditions@.len()
                && can_be_stored(renditions@[plan.inline@[i] as int]),
    ensures
        is_compiled(
            out,
            renditions@,
            facets@,
            *plan,
            min_deploy@,
            platform@,
            coreui_version,
        ),
{
    let entries = make_catalog_entries(
        renditions,
        facets,
        plan.sheets.as_slice(),
        &plan.inline,
        plan.keyformat.as_slice(),
        min_deploy,
        platform,
    );
    if entries.len() == 0 {
        assert(pair_contents(entries@).len() == 0);
        return Compiled::Nothing;
    }
    assert(pair_contents(entries@).len() > 0);
    match build_catalog_archive(
        entries.as_slice(),
        facets,
        uses_appearances(renditions),
        plan.keyformat.as_slice(),
        min_deploy,
        platform,
        coreui_version,
    ) {
        Some(file) => Compiled::Archive(file),
        None => Compiled::TooLarge,
    }
}

/// The keys of a catalog have a dozen columns at most.
proof fn lemma_columns_len(rs: Seq<Rendition>, platform: Seq<char>, force_dim1: bool)
    ensures
        catalog_columns(rs, platform, force_dim1).len() <= 12,
{
}

/// Whether a rendition can be compiled for a platform and a deployment target.
pub open spec fn rendition_ready(r: Rendition, min_deploy: Seq<char>, platform: Seq<char>) -> bool {
    r.csi_override is None && r.pixel_data@.len() > 0 ==> r.storable_for(min_deploy, platform)
}

/// Whether a catalog can be compiled: its texts fit their fields, and its
/// renditions can be stored.
pub open spec fn can_be_compiled(
    rs: Seq<Rendition>,
    min_deploy: Seq<char>,
    platform: Seq<char>,
) -> bool {
    &&& texts_fit(min_deploy, platform)
    &&& forall|i: int|
        0 <= i < rs.len() ==> rendition_ready(#[trigger] rs[i], min_deploy, platform)
}

/// Whether `out` is what comes of compiling a catalog.
pub open spec fn compiles_to(
    renditions: Seq<Rendition>,
    facets: Seq<(Seq<char>, Facet)>,
    has_icon: bool,
    min_deploy: Seq<char>,
    platform: Seq<char>,
    coreui_version: u32,
    out: Compiled,
) -> bool {
    exists|plan: Plan, rs: Seq<Rendition>|
        {
            &&& #[trigger] is_plan(plan, renditions, min_deploy, platform)
            &&& are_prepared(rs, renditions, has_icon, plan.keyformat@, min_deploy, platform)
            &&& #[trigger] is_compiled(
                out,
                rs,
                facets,
                plan,
                min_deploy,
                platform,
                coreui_version,
            )
        }
}

/// Whether a catalog can be compiled.
pub fn check_catalog(renditions: &Vec<Rendition>, min_deploy: &str, platform: &str) -> (answer: bool)
    ensures
        answer == can_be_compiled(renditions@, min_deploy@, platform@),
{
    if min_deploy.as_bytes().len() > 768 || deployment_platform_name(platform).as_bytes().len()
        > 512 {
        return false;
    }
    let mut i: usize = 0;
    while i < renditions.len()
        invariant
            i <= renditions@.len(),
            texts_fit(min_deploy@, platform@),
            forall|j: int|
                0 <= j < i ==> rendition_ready(#[trigger] renditions@[j], min_deploy@, platform@),
        decreases renditions.len() - i,
    {
        let r = &renditions[i];
        if r.csi_override.is_none() && r.pixel_data.len() > 0 && !r.is_storable_for(
            min_deploy,
            platform,
        ) {
            assert(!rendition_ready(renditions@[i as int], min_deploy@, platform@));
            return false;
        }
        i = i + 1;
    }
    true
}

/// Compiles renditions and facets into an archive; `None` if they cannot be
/// compiled.
pub fn try_compile_catalog(
    renditions: Vec<Rendition>,
    facets: &FacetTable,
    has_icon: bool,
    min_deploy: &str,
    platform: &str,
    coreui_version: u32,
) -> (out: Option<Compiled>)
    requires
        facets.wf(),
    ensures
        match out {
            Some(compiled) => can_be_compiled(renditions@, min_deploy@, platform@) && compiles_to(
                renditions@,
                facets@,
                has_icon,
                min_deploy@,
                platform@,
                coreui_version,
                compiled,
            ),
            None => !can_be_compiled(renditions@, min_deploy@, platform@),
        },
{
    if check_catalog(&renditions, min_deploy, platform) {
        Some(
            compile_catalog(
                renditions,
                facets,
                has_icon,
                min_deploy,
                platform,
                coreui_version,
            ),
        )
    } else {
        None
    }
}

/// Compiles renditions and facets into an archive.
pub fn compile_catalog(
    renditions: Vec<Rendition>,
    facets: &FacetTable,
    has_icon: bool,
    min_deploy: &str,
    platform: &str,
    coreui_version: u32,
) -> (out: Compiled)
    requires
        facets.wf(),
        can_be_compiled(renditions@, min_deploy@, platform@),
    ensures
        compiles_to(
            renditions@,
            facets@,
            has_icon,
            min_deploy@,
            platform@,
            coreui_version,
            out,
        ),
{
    let mut renditions = renditions;
    let ghost before = renditions@;
    let plan = plan_catalog(renditions.as_slice(), min_deploy, platform);
    prepare_renditions(&mut renditions, has_icon, &plan.keyformat, min_deploy, platform);
    proof {
        let (groups, bounds) = choose|groups: Seq<PackGroup>, bounds: Seq<int>|
            {
                &&& #[trigger] is_split(before, groups, plan.inline@, min_deploy@, platform@)
                &&& #[trigger] sheets_follow(plan.sheets@, bounds, before, groups)
                &&& plan.keyformat@ == catalog_columns(
                    before,
                    platform@,
                    plan.sheets@.len() > scale_count(groups, groups.len()),
                )
            };
        lemma_columns_len(
            before,
            platform@,
            plan.sheets@.len() > scale_count(groups, groups.len()),
        );
        assert forall|i: int| 0 <= i < plan.inline@.len() implies (#[trigger] plan.inline@[i])
            < renditions@.len() && can_be_stored(renditions@[plan.inline@[i] as int]) by {
            let k = plan.inline@[i] as int;
            let r = before[k];
            let after = renditions@[k];
            assert(is_prepared(
                after,
                r,
                has_icon,
                plan.keyformat@,
                min_deploy@,
                platform@,
            ));
            if r.csi_override is None && r.pixel_data@.len() > 0 {
                assert(after.stored_pixels() == r.stored_pixels_for(min_deploy@, platform@));
                assert(after.storable());
            }
        }
    }
    store_catalog(
        renditions.as_slice(),
        facets,
        &plan,
        min_deploy,
        platform,
        coreui_version,
    )
}

} // verus!
