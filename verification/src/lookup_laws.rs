//! What the tables of an archive tell about its renditions, and which renditions share
//! a sheet.

use vstd::prelude::*;

use crate::bitmapkeys::{
    bitmap_value, column_at, column_mask, column_masks, key_column, key_counts,
    values_seen_tells_values,
};
use crate::bytes::{le32, le32_reads_back, read_le16, read_le32};
use crate::car::colorspace_of_format;
use crate::compiler::{
    forces_lzfse, group_rank, key_semantics, sheet_csi, sheet_deepmap, sheet_name,
    sprite_atlas_csi, sprite_atlas_of, sprite_atlas_parts, sprite_names,
};
use crate::compress::{compressed, gzip_stream, kcbc_chunks};
use crate::csi::{
    asset_row_length, no_format, opacity_tlv, orientation_tlv, packed_asset, percent,
    row_length_tlv, slices_tlv, sprites_tlv, ONE,
};
use crate::csi_laws::{
    body_of, headers_read_back, lemma_parts_told, tags_of, tells_image, tells_name,
};
use crate::facets::Facet;
use crate::grouping::{is_packed, stays_inline, PackGroup};
use crate::order::sorted_texts;
use crate::rendition::Rendition;
use crate::sheets::Sheet;
use crate::text::decimal;

verus! {

proof fn lemma_masks(keys: Seq<Seq<u8>>, format: Seq<u16>, identifier: u16, n: nat, i: int)
    requires
        n <= format.len(),
        0 <= i < n,
    ensures
        ({
            let all = column_masks(keys, format, identifier, n);
            &&& all.len() == 4 * n
            &&& all.subrange(4 * i, 4 * i + 4) == le32(column_mask(keys, format, identifier, i))
        }),
    decreases n,
{
    let all = column_masks(keys, format, identifier, n);
    let before = column_masks(keys, format, identifier, (n - 1) as nat);
    lemma_masks_len(keys, format, identifier, (n - 1) as nat);
    if i < n - 1 {
        lemma_masks(keys, format, identifier, (n - 1) as nat, i);
        assert(all.subrange(4 * i, 4 * i + 4) =~= before.subrange(4 * i, 4 * i + 4));
    } else {
        assert(all.subrange(4 * i, 4 * i + 4) =~= le32(
            column_mask(keys, format, identifier, i),
        ));
    }
}

proof fn lemma_masks_len(keys: Seq<Seq<u8>>, format: Seq<u16>, identifier: u16, n: nat)
    ensures
        column_masks(keys, format, identifier, n).len() == 4 * n,
    decreases n,
{
    if n > 0 {
        lemma_masks_len(keys, format, identifier, (n - 1) as nat);
    }
}

/// The bitmap of an identifier reads back: how long it is, how many columns there are,
/// and the mask of each in its place.
pub proof fn bitmaps_read_back(keys: Seq<Seq<u8>>, format: Seq<u16>, identifier: u16, i: int)
    requires
        0 <= i < format.len(),
        4 + 4 * format.len() <= u32::MAX,
    ensures
        ({
            let value = bitmap_value(keys, format, identifier);
            &&& value.len() == 16 + 4 * format.len()
            &&& read_le32(value, 0) == 1
            &&& read_le32(value, 4) == 0
            &&& read_le32(value, 8) == 4 + 4 * format.len()
            &&& read_le32(value, 12) == format.len()
            &&& read_le32(value, 16 + 4 * i) == column_mask(keys, format, identifier, i)
        }),
{
    let value = bitmap_value(keys, format, identifier);
    let masks = column_masks(keys, format, identifier, format.len());
    lemma_masks(keys, format, identifier, format.len(), i);
    assert(value.subrange(0, 4) =~= le32(1));
    assert(value.subrange(4, 8) =~= le32(0));
    assert(value.subrange(8, 12) =~= le32((4 + 4 * format.len()) as u32));
    assert(value.subrange(12, 16) =~= le32(format.len() as u32));
    assert(value.subrange(16 + 4 * i, 20 + 4 * i) =~= masks.subrange(4 * i, 4 * i + 4));
    le32_reads_back(value, 0, 1);
    le32_reads_back(value, 4, 0);
    le32_reads_back(value, 8, (4 + 4 * format.len()) as u32);
    le32_reads_back(value, 12, format.len() as u32);
    le32_reads_back(value, 16 + 4 * i, column_mask(keys, format, identifier, i));
}

/// Whether a key is one with an identifier and a value in a column.
pub open spec fn key_says(key: Seq<u8>, id_at: int, identifier: u16, i: int, v: u32) -> bool {
    &&& 0 <= id_at < key.len() / 2
    &&& 0 <= i < key.len() / 2
    &&& read_le16(key, 2 * id_at) == identifier
    &&& read_le16(key, 2 * i) == v
}

/// A mask holds every value that a key of the identifier has in the column; columns for
/// element, part, appearance and identifier hold all.
pub proof fn masks_hold_the_values(
    keys: Seq<Seq<u8>>,
    format: Seq<u16>,
    identifier: u16,
    id_at: int,
    i: int,
    k: int,
    v: u32,
)
    requires
        0 <= id_at < format.len(),
        0 <= i < format.len(),
        format[id_at] == 17,
        forall|j: int| 0 <= j < id_at ==> #[trigger] format[j] != 17,
        0 <= k < keys.len(),
        v < 32,
        key_says(keys[k], id_at, identifier, i, v),
    ensures
        (column_mask(keys, format, identifier, i) >> v) & 1 == 1,
        format[i] == 1 || format[i] == 2 || format[i] == 7 || format[i] == 17 ==> column_mask(
            keys,
            format,
            identifier,
            i,
        ) == 0xffff_ffff,
{
    lemma_column(format, id_at, 0);
    values_seen_tells_values(keys, keys.len(), id_at, identifier, i, v);
    assert(key_counts(keys[k], id_at, identifier, i) && key_column(keys[k], i) == v);
    assert((0xffff_ffffu32 >> v) & 1 == 1) by (bit_vector)
        requires
            v < 32,
    ;
    assert((0u32 >> v) & 1 == 0) by (bit_vector);
}

proof fn lemma_column(format: Seq<u16>, at: int, from: int)
    requires
        0 <= from <= at < format.len(),
        format[at] == 17,
        forall|j: int| from <= j < at ==> #[trigger] format[j] != 17,
    ensures
        column_at(format, 17, from) == at,
    decreases at - from,
{
    if from < at {
        lemma_column(format, at, from + 1);
    }
}

/// An atlas is stored with its width, its height, its scale and its pixel format, under
/// its name, with the data behind them.
pub proof fn atlases_read_back(
    name: Seq<char>,
    width: u32,
    height: u32,
    scale: u16,
    format: Seq<u8>,
    pixels: Seq<u8>,
    data: Seq<u8>,
)
    requires
        format.len() == 4,
        data.len() <= u32::MAX,
    ensures
        ({
            let s = packed_asset(name, width, height, scale, format, pixels, data);
            &&& read_le32(s, 8) == 0
            &&& read_le32(s, 12) == width
            &&& read_le32(s, 16) == height
            &&& read_le32(s, 20) == 100 * scale
            &&& s.subrange(24, 28) == format
            &&& tells_name(s, 1004, name)
            &&& body_of(s) == data
        }),
{
    let row = asset_row_length(width, height, pixels.len(), read_le32(data, 8));
    let tags = slices_tlv(0, 0) + opacity_tlv(ONE) + orientation_tlv(1) + row_length_tlv(row);
    lemma_sheet_tags(row);
    let space = colorspace_of_format(format);
    headers_read_back(
        width,
        height,
        percent(scale),
        format,
        1004,
        name,
        tags,
        data,
        0,
        space,
        1,
    );
    let s = packed_asset(name, width, height, scale, format, pixels, data);
    lemma_parts_told(s, tags, data, 1);
    lemma_image_told(s, width, height, percent(scale), format, 0, space);
}

proof fn lemma_image_told(
    s: Seq<u8>,
    width: u32,
    height: u32,
    scale_factor: u32,
    format: Seq<u8>,
    flags: u32,
    space: u32,
)
    requires
        tells_image(s, width, height, scale_factor, format, flags, space),
    ensures
        read_le32(s, 8) == flags,
        read_le32(s, 12) == width,
        read_le32(s, 16) == height,
        read_le32(s, 20) == scale_factor,
        s.subrange(24, 28) == format,
{
    reveal(tells_image);
}

proof fn lemma_sheet_tags(row: u32)
    ensures
        (slices_tlv(0, 0) + opacity_tlv(ONE) + orientation_tlv(1) + row_length_tlv(row)).len()
            <= 200,
{
}

/// The rows of an atlas are told with the length that they have; compressed by the
/// deepmap encoder, they are told with their multiple of 32.
pub proof fn atlas_rows_are_told(width: u32, height: u32, row: nat, method: nat)
    requires
        height > 0,
        row <= u32::MAX,
        width * 4 + 31 <= u32::MAX,
    ensures
        method != 11 ==> asset_row_length(width, height, row * height as nat, method) == row,
        method == 11 ==> {
            let told = asset_row_length(width, height, row * height as nat, method);
            told % 32 == 0 && 4 * width <= told < 4 * width + 32
        },
{
    vstd::arithmetic::div_mod::lemma_div_multiples_vanish(row as int, height as int);
    vstd::arithmetic::mul::lemma_mul_is_commutative(row as int, height as int);
}

/// A sheet is stored as its atlas: its own width and height, its scale and its pixels.
pub proof fn sheets_are_atlases(
    sheet: Sheet,
    min_deploy: Seq<char>,
    platform: Seq<char>,
) -> (data: Seq<u8>)
    ensures
        sheet_csi(sheet, min_deploy, platform) == packed_asset(
            sheet_name(sheet),
            sheet.atlas.width,
            sheet.atlas.height,
            sheet.scale,
            sheet.atlas.pixel_format@,
            sheet.atlas.pixel_data@,
            data,
        ),
{
    let atlas = sheet.atlas;
    let pixels = atlas.pixel_data@;
    compressed(
        pixels,
        atlas.pixel_format@,
        atlas.width,
        atlas.height,
        min_deploy,
        platform,
        if forces_lzfse(sheet) {
            None
        } else {
            sheet_deepmap(sheet)
        },
        false,
        false,
        kcbc_chunks(pixels, atlas.height),
        gzip_stream(pixels),
    )
}

/// A sheet is named by its scale, its number and its gamut; the sheets of sprite atlases
/// have names of their own.
pub proof fn sheets_are_named(sheet: Sheet)
    ensures
        ({
            let atlas = sheet.atlas;
            let numbers = decimal(atlas.scale as nat) + "."@ + decimal(atlas.dim1 as nat) + "."@
                + decimal(atlas.name_index()) + "-gamut"@ + decimal(atlas.gamut as nat);
            &&& sheet.sprite_atlas_id == 0 ==> sheet_name(sheet) == "ZZZZPackedAsset-"@ + numbers
            &&& sheet.sprite_atlas_id != 0 ==> sheet_name(sheet)
                == "ZZZZExplicitlyPackedAsset-"@ + numbers
        }),
{
    let atlas = sheet.atlas;
    let numbers = decimal(atlas.scale as nat) + "."@ + decimal(atlas.dim1 as nat) + "."@ + decimal(
        atlas.name_index(),
    ) + "-gamut"@ + decimal(atlas.gamut as nat);
    assert(atlas.name_after("ZZZZPackedAsset-"@) =~= "ZZZZPackedAsset-"@ + numbers);
    assert(atlas.name_after("ZZZZExplicitlyPackedAsset-"@) =~= "ZZZZExplicitlyPackedAsset-"@
        + numbers);
}

/// A rendition shares a sheet only if it is an image, not too large, without a special
/// display and without a stored form of its own.
pub proof fn sheets_hold_small_images(r: Rendition)
    ensures
        !stays_inline(r) <==> {
            &&& r.layout != 1010
            &&& r.layout != 1009
            &&& r.layout != 1000
            &&& r.layout != 1005
            &&& r.part == 220 ==> r.width < 256
            &&& r.subtype == 0
            &&& r.csi_override is None
            &&& r.width < 258
            &&& r.height < 192
        },
{
}

/// A group with renditions of two assets is packed; one with those of a single asset is
/// not, unless they are icons of several sizes for devices.
pub proof fn groups_of_two_are_packed(rs: Seq<Rendition>, members: Seq<usize>, i: int, j: int)
    requires
        0 <= i < members.len(),
        0 <= j < members.len(),
    ensures
        rs[members[i] as int].identifier != rs[members[j] as int].identifier ==> is_packed(
            rs,
            members,
        ),
        rs[members[i] as int].dim2 != rs[members[j] as int].dim2 && rs[members[i] as int].part
            == 220 && rs[members[j] as int].part == 220 && rs[members[i] as int].idiom != 0
            && rs[members[j] as int].idiom != 0 ==> is_packed(rs, members),
        (forall|k: int|
            0 <= k < members.len() ==> rs[#[trigger] members[k] as int].identifier
                == rs[members[i] as int].identifier && (rs[members[k] as int].part != 220
                || rs[members[k] as int].idiom == 0)) ==> !is_packed(rs, members),
{
}

/// Groups are packed by scale, at each scale those in color first.
pub proof fn groups_are_ranked(a: PackGroup, b: PackGroup)
    ensures
        a.scale < b.scale ==> group_rank(a) < group_rank(b),
        a.scale == b.scale && a.pixel_format@ == seq![66u8, 71u8, 82u8, 65u8] && b.pixel_format@
            != seq![66u8, 71u8, 82u8, 65u8] ==> group_rank(a) < group_rank(b),
        a.scale == b.scale && a.pixel_format@ == b.pixel_format@ ==> group_rank(a) == group_rank(b),
{
}

/// The keys of iOS are read with idioms.
pub proof fn keys_have_semantics(platform: Seq<char>)
    ensures
        platform == "iphoneos"@ || platform == "iphonesimulator"@ ==> key_semantics(platform) == 2,
        platform != "iphoneos"@ && platform != "iphonesimulator"@ ==> key_semantics(platform) == 1,
{
}

/// The first rendition of an identifier that belongs to a sprite atlas tells the atlas.
pub proof fn sprites_tell_their_atlas(rs: Seq<Rendition>, identifier: u16, from: int)
    requires
        0 <= from <= rs.len(),
    ensures
        ({
            let id = sprite_atlas_of(rs, identifier, from);
            &&& id != 0 ==> exists|k: int|
                from <= k < rs.len() && (#[trigger] rs[k]).identifier == identifier
                    && rs[k].sprite_atlas_id == id
            &&& id == 0 ==> forall|k: int|
                from <= k < rs.len() && (#[trigger] rs[k]).identifier == identifier
                    ==> rs[k].sprite_atlas_id == 0
        }),
    decreases rs.len() - from,
{
    if from < rs.len() {
        sprites_tell_their_atlas(rs, identifier, from + 1);
    }
}

/// The names of a sprite atlas are those of the facets whose renditions belong to it.
pub proof fn atlases_name_their_sprites(
    facets: Seq<(Seq<char>, Facet)>,
    rs: Seq<Rendition>,
    id: u16,
    n: nat,
    k: int,
)
    requires
        n <= facets.len(),
        0 <= k < n,
    ensures
        sprite_atlas_of(rs, facets[k].1.identifier, 0) == id ==> sprite_names(
            facets,
            rs,
            id,
            n,
        ).contains(facets[k].0),
    decreases n,
{
    let all = sprite_names(facets, rs, id, n);
    let before = sprite_names(facets, rs, id, (n - 1) as nat);
    if sprite_atlas_of(rs, facets[k].1.identifier, 0) == id {
        if k < n - 1 {
            atlases_name_their_sprites(facets, rs, id, (n - 1) as nat, k);
            let i = choose|i: int| 0 <= i < before.len() && before[i] == facets[k].0;
            assert(all[i] == facets[k].0);
        } else {
            assert(all[all.len() - 1] == facets[k].0);
        }
    }
}

/// The entry of a sprite atlas is found by the identifier of the atlas, and lists the
/// names of its sprites in order.
pub proof fn sprite_atlases_are_told(id: u16, list: Seq<Seq<char>>)
    requires
        sprites_tlv(sorted_texts(list)).len() <= u32::MAX,
    ensures
        sprite_atlas_parts(id).element == 9,
        sprite_atlas_parts(id).part == 127,
        sprite_atlas_parts(id).identifier == id,
        sprite_atlas_parts(id).scale == 1,
        tells_name(sprite_atlas_csi(list), 1005, "CoreStructuredImage"@),
        tags_of(sprite_atlas_csi(list)) == sprites_tlv(sorted_texts(list)),
{
    let tags = sprites_tlv(sorted_texts(list));
    assert(no_format() =~= seq![0u8, 0, 0, 0]);
    headers_read_back(
        0,
        0,
        100,
        no_format(),
        1005,
        "CoreStructuredImage"@,
        tags,
        Seq::empty(),
        0,
        0,
        1,
    );
    lemma_parts_told(sprite_atlas_csi(list), tags, Seq::empty(), 1);
}

} // verus!
