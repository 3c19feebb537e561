//! What the tables of a catalog tell a reader.

use vstd::prelude::*;

use crate::bitmapkeys::bitmap_value;
use crate::bytes::{be32, le16, le16_reads_back, le32, le32_reads_back, read_le16, read_le32};
use crate::car::{
    facet_value, keyformat_block, wide_numbers, ATTR_ELEMENT, ATTR_IDENTIFIER, ATTR_PART,
    KEYFORMAT_MAGIC,
};
use crate::compiler::{
    bitmap_entries, catalog_bitmaps, catalog_entries, entries_of_sheets, identifier_keys,
    identifier_order, inline_entries, sheet_entries, sprite_atlases, stored_entry,
    with_sprite_atlases,
};
use crate::facets::Facet;
use crate::icon_car::{has_identifier, icon_bitmaps, IDENTIFIERS};
use crate::order::{
    arranged, byte_order, first_keys, is_byte_order, is_stable_order, lemma_permutation_reaches,
    sorted_pairs, stable_order_is_unique,
};
use crate::rendition::Rendition;
use crate::sheets::Sheet;

verus! {

/// A facet with a part tells its element, its part and its identifier.
pub proof fn facets_with_parts_read_back(element: u16, part: u16, identifier: u16)
    ensures
        ({
            let value = facet_value(element, Some(part), identifier);
            &&& value.len() == 18
            &&& read_le16(value, 4) == 3
            &&& read_le16(value, 6) == ATTR_ELEMENT
            &&& read_le16(value, 8) == element
            &&& read_le16(value, 10) == ATTR_PART
            &&& read_le16(value, 12) == part
            &&& read_le16(value, 14) == ATTR_IDENTIFIER
            &&& read_le16(value, 16) == identifier
        }),
{
    let value = facet_value(element, Some(part), identifier);
    assert(value.subrange(4, 6) =~= le16(3));
    assert(value.subrange(6, 8) =~= le16(ATTR_ELEMENT));
    assert(value.subrange(8, 10) =~= le16(element));
    assert(value.subrange(10, 12) =~= le16(ATTR_PART));
    assert(value.subrange(12, 14) =~= le16(part));
    assert(value.subrange(14, 16) =~= le16(ATTR_IDENTIFIER));
    assert(value.subrange(16, 18) =~= le16(identifier));
    le16_reads_back(value, 4, 3);
    le16_reads_back(value, 6, ATTR_ELEMENT);
    le16_reads_back(value, 8, element);
    le16_reads_back(value, 10, ATTR_PART);
    le16_reads_back(value, 12, part);
    le16_reads_back(value, 14, ATTR_IDENTIFIER);
    le16_reads_back(value, 16, identifier);
}

/// A facet without a part tells its element and its identifier.
pub proof fn facets_without_parts_read_back(element: u16, identifier: u16)
    ensures
        ({
            let value = facet_value(element, None, identifier);
            &&& value.len() == 14
            &&& read_le16(value, 4) == 2
            &&& read_le16(value, 6) == ATTR_ELEMENT
            &&& read_le16(value, 8) == element
            &&& read_le16(value, 10) == ATTR_IDENTIFIER
            &&& read_le16(value, 12) == identifier
        }),
{
    let value = facet_value(element, None, identifier);
    assert(value.subrange(4, 6) =~= le16(2));
    assert(value.subrange(6, 8) =~= le16(ATTR_ELEMENT));
    assert(value.subrange(8, 10) =~= le16(element));
    assert(value.subrange(10, 12) =~= le16(ATTR_IDENTIFIER));
    assert(value.subrange(12, 14) =~= le16(identifier));
    le16_reads_back(value, 4, 2);
    le16_reads_back(value, 6, ATTR_ELEMENT);
    le16_reads_back(value, 8, element);
    le16_reads_back(value, 10, ATTR_IDENTIFIER);
    le16_reads_back(value, 12, identifier);
}

/// Numbers of four bytes stand one behind the other.
proof fn lemma_wide_numbers(values: Seq<u16>, i: int)
    requires
        0 <= i < values.len(),
    ensures
        wide_numbers(values).len() == 4 * values.len(),
        wide_numbers(values).subrange(4 * i, 4 * i + 4) == le32(values[i] as u32),
    decreases values.len(),
{
    let all = wide_numbers(values);
    let rest = wide_numbers(values.drop_last());
    if values.len() > 1 {
        lemma_wide_numbers(values.drop_last(), 0);
    }
    assert(rest.len() == 4 * (values.len() - 1));
    if i == values.len() - 1 {
        assert(all.subrange(4 * i, 4 * i + 4) =~= le32(values[i] as u32));
    } else {
        lemma_wide_numbers(values.drop_last(), i);
        assert(all.subrange(4 * i, 4 * i + 4) =~= rest.subrange(4 * i, 4 * i + 4));
    }
}

/// The table of columns tells how many there are, and each of them.
pub proof fn keyformats_read_back(columns: Seq<u16>, i: int)
    requires
        0 <= i < columns.len() <= u32::MAX,
    ensures
        ({
            let block = keyformat_block(columns);
            &&& block.len() == 12 + 4 * columns.len()
            &&& block.subrange(0, 4) == be32(KEYFORMAT_MAGIC)
            &&& read_le32(block, 8) == columns.len()
            &&& read_le32(block, 12 + 4 * i) == columns[i]
        }),
{
    let block = keyformat_block(columns);
    let table = wide_numbers(columns);
    lemma_wide_numbers(columns, i);
    assert(block.subrange(0, 4) =~= be32(KEYFORMAT_MAGIC));
    assert(block.subrange(8, 12) =~= le32(columns.len() as u32));
    assert(block.subrange(12 + 4 * i, 16 + 4 * i) =~= table.subrange(4 * i, 4 * i + 4));
    le32_reads_back(block, 8, columns.len() as u32);
    le32_reads_back(block, 12 + 4 * i, columns[i] as u32);
}

/// Each facet of a list with an identifier has its entry.
proof fn lemma_bitmap_entry(
    facets: Seq<(Seq<char>, Facet)>,
    n: nat,
    keys: Seq<Seq<u8>>,
    columns: Seq<u16>,
    i: int,
)
    requires
        0 <= i < n <= facets.len(),
        facets[i].1.identifier != 0,
    ensures
        bitmap_entries(facets, n, keys, columns).contains(
            (
                facets[i].1.identifier as u32,
                bitmap_value(keys, columns, facets[i].1.identifier),
            ),
        ),
    decreases n,
{
    let id = facets[i].1.identifier;
    let entry = (id as u32, bitmap_value(keys, columns, id));
    let all = bitmap_entries(facets, n, keys, columns);
    let before = bitmap_entries(facets, (n - 1) as nat, keys, columns);
    if i == n - 1 {
        assert(all[all.len() - 1] == entry);
    } else {
        lemma_bitmap_entry(facets, (n - 1) as nat, keys, columns, i);
        let j = choose|j: int| 0 <= j < before.len() && before[j] == entry;
        assert(all[j] == entry);
    }
}

/// Every facet of a catalog with an identifier has an entry in the table of bitmap
/// keys.  `order` is the order of the facets by identifier.
pub proof fn every_facet_has_a_bitmap(
    facets: Seq<(Seq<char>, Facet)>,
    entries: Seq<(Seq<u8>, Seq<u8>)>,
    columns: Seq<u16>,
    order: Seq<usize>,
    i: int,
)
    requires
        is_stable_order(identifier_keys(facets), order),
        0 <= i < facets.len(),
        facets[i].1.identifier != 0,
    ensures
        catalog_bitmaps(facets, entries, columns).contains(
            (
                facets[i].1.identifier as u32,
                bitmap_value(first_keys(entries), columns, facets[i].1.identifier),
            ),
        ),
{
    stable_order_is_unique(identifier_keys(facets), order, identifier_order(facets));
    let sorted = arranged(facets, order);
    let at = lemma_permutation_reaches(order, i);
    assert(sorted[at] == facets[i]);
    lemma_bitmap_entry(sorted, facets.len(), first_keys(entries), columns, at);
}

/// Every identifier but zero that a key of an icon has is in the table of bitmap keys.
pub proof fn every_identifier_has_a_bitmap(
    keys: Seq<Seq<u8>>,
    columns: Seq<u16>,
    n: nat,
    id: nat,
)
    requires
        0 < id < n <= IDENTIFIERS,
        has_identifier(
            keys,
            crate::bitmapkeys::column_at(columns, ATTR_IDENTIFIER, 0),
            id,
        ),
    ensures
        icon_bitmaps(keys, columns, n).contains(
            (id as u32, bitmap_value(keys, columns, id as u16)),
        ),
    decreases n,
{
    let entry = (id as u32, bitmap_value(keys, columns, id as u16));
    let all = icon_bitmaps(keys, columns, n);
    let before = icon_bitmaps(keys, columns, (n - 1) as nat);
    if id == n - 1 {
        assert(all[all.len() - 1] == entry);
    } else {
        every_identifier_has_a_bitmap(keys, columns, (n - 1) as nat, id);
        let j = choose|j: int| 0 <= j < before.len() && before[j] == entry;
        assert(all[j] == entry);
    }
}

/// Sorting pairs keeps every one of them.  `order` is the order of their keys.
pub proof fn sorting_keeps_pairs(pairs: Seq<(Seq<u8>, Seq<u8>)>, order: Seq<usize>, i: int)
    requires
        is_byte_order(first_keys(pairs), order),
        0 <= i < pairs.len(),
    ensures
        sorted_pairs(pairs).len() == pairs.len(),
        sorted_pairs(pairs).contains(pairs[i]),
{
    let p = byte_order(first_keys(pairs));
    assert(is_byte_order(first_keys(pairs), p));
    let at = lemma_permutation_reaches(p, i);
    assert(sorted_pairs(pairs)[at] == pairs[i]);
}

/// The entries of a catalog before they are sorted.
pub open spec fn unsorted_entries(
    rs: Seq<Rendition>,
    facets: Seq<(Seq<char>, Facet)>,
    sheets: Seq<Sheet>,
    own: Seq<usize>,
    columns: Seq<u16>,
    min_deploy: Seq<char>,
    platform: Seq<char>,
) -> Seq<(Seq<u8>, Seq<u8>)> {
    let packed = entries_of_sheets(sheets, sheets.len(), columns, min_deploy, platform);
    let ids = sprite_atlases(facets, rs, facets.len());
    with_sprite_atlases(packed, ids, ids.len(), facets, rs, columns) + inline_entries(
        rs,
        own,
        own.len(),
    )
}

/// The entries of renditions that are stored on their own stand in order.
proof fn lemma_inline_entry(rs: Seq<Rendition>, own: Seq<usize>, n: nat, i: int)
    requires
        0 <= i < n <= own.len(),
    ensures
        inline_entries(rs, own, n).len() == n,
        inline_entries(rs, own, n)[i] == stored_entry(rs[own[i] as int]),
    decreases n,
{
    assert(inline_entries(rs, own, 0).len() == 0);
    if n > 1 {
        lemma_inline_entry(rs, own, (n - 1) as nat, 0);
    }
    if i < n - 1 {
        lemma_inline_entry(rs, own, (n - 1) as nat, i);
    }
}

/// Every rendition that is stored on its own has its entry in the archive: its key,
/// and the rendition as it is stored.  `order` is the order of the keys.
pub proof fn own_renditions_are_stored(
    rs: Seq<Rendition>,
    facets: Seq<(Seq<char>, Facet)>,
    sheets: Seq<Sheet>,
    own: Seq<usize>,
    columns: Seq<u16>,
    min_deploy: Seq<char>,
    platform: Seq<char>,
    order: Seq<usize>,
    i: int,
)
    requires
        is_byte_order(
            first_keys(
                unsorted_entries(rs, facets, sheets, own, columns, min_deploy, platform),
            ),
            order,
        ),
        0 <= i < own.len(),
    ensures
        catalog_entries(rs, facets, sheets, own, columns, min_deploy, platform).contains(
            stored_entry(rs[own[i] as int]),
        ),
{
    let all = unsorted_entries(rs, facets, sheets, own, columns, min_deploy, platform);
    let last = inline_entries(rs, own, own.len());
    lemma_inline_entry(rs, own, own.len(), i);
    let at = all.len() - last.len() + i;
    assert(all[at] == last[i]);
    sorting_keeps_pairs(all, order, at);
}

/// The entries of a sheet are among those of all.
proof fn lemma_sheet_entry(
    sheets: Seq<Sheet>,
    n: nat,
    columns: Seq<u16>,
    min_deploy: Seq<char>,
    platform: Seq<char>,
    k: int,
    e: int,
) -> (at: int)
    requires
        0 <= k < n <= sheets.len(),
        0 <= e < sheet_entries(sheets[k], columns, min_deploy, platform).len(),
    ensures
        0 <= at < entries_of_sheets(sheets, n, columns, min_deploy, platform).len(),
        entries_of_sheets(sheets, n, columns, min_deploy, platform)[at] == sheet_entries(
            sheets[k],
            columns,
            min_deploy,
            platform,
        )[e],
    decreases n,
{
    let before = entries_of_sheets(sheets, (n - 1) as nat, columns, min_deploy, platform);
    if k == n - 1 {
        before.len() + e
    } else {
        lemma_sheet_entry(sheets, (n - 1) as nat, columns, min_deploy, platform, k, e)
    }
}

/// Sprite atlases come behind what was there.
proof fn lemma_sprites_behind(
    entries: Seq<(Seq<u8>, Seq<u8>)>,
    ids: Seq<u16>,
    n: nat,
    facets: Seq<(Seq<char>, Facet)>,
    rs: Seq<Rendition>,
    columns: Seq<u16>,
    at: int,
)
    requires
        0 <= at < entries.len(),
    ensures
        with_sprite_atlases(entries, ids, n, facets, rs, columns).len() >= entries.len(),
        with_sprite_atlases(entries, ids, n, facets, rs, columns)[at] == entries[at],
    decreases n,
{
    if n > 0 {
        lemma_sprites_behind(entries, ids, (n - 1) as nat, facets, rs, columns, at);
    }
}

/// Every sheet and every image on a sheet has its entry in the archive.  `order` is
/// the order of the keys.
pub proof fn sheets_are_stored(
    rs: Seq<Rendition>,
    facets: Seq<(Seq<char>, Facet)>,
    sheets: Seq<Sheet>,
    own: Seq<usize>,
    columns: Seq<u16>,
    min_deploy: Seq<char>,
    platform: Seq<char>,
    order: Seq<usize>,
    k: int,
    e: int,
)
    requires
        is_byte_order(
            first_keys(
                unsorted_entries(rs, facets, sheets, own, columns, min_deploy, platform),
            ),
            order,
        ),
        0 <= k < sheets.len(),
        0 <= e < sheet_entries(sheets[k], columns, min_deploy, platform).len(),
    ensures
        catalog_entries(rs, facets, sheets, own, columns, min_deploy, platform).contains(
            sheet_entries(sheets[k], columns, min_deploy, platform)[e],
        ),
{
    let all = unsorted_entries(rs, facets, sheets, own, columns, min_deploy, platform);
    let packed = entries_of_sheets(sheets, sheets.len(), columns, min_deploy, platform);
    let ids = sprite_atlases(facets, rs, facets.len());
    let at = lemma_sheet_entry(sheets, sheets.len(), columns, min_deploy, platform, k, e);
    lemma_sprites_behind(packed, ids, ids.len(), facets, rs, columns, at);
    sorting_keeps_pairs(all, order, at);
}

} // verus!
