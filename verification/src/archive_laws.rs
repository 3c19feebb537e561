//! What can be read back from an archive.

use vstd::prelude::*;

use crate::archive::{archive_bytes, archive_contents, BITMAP_NODE_SIZE, NODE_SIZE};
use crate::bom::{
    batch, index_offset, leaf_count, leaf_head, lemma_leaf_bounds, lemma_place_in_leaf,
    no_contents, per_leaf, plus_block, plus_raw_tree, plus_tree, raw_leaf, raw_leaves, raw_table,
    raw_tree_blocks, row_leads_to, stored_blocks_read_back, tree_blocks, tree_holds_every_entry,
    value_blocks, vars_section, widest_key, Contents,
};
use crate::bytes::{be32, be32_reads_back, read_be32};
use crate::index::with_entry;

verus! {

/// Block `id` of a store, read through the index that the header leads to.
pub open spec fn block_in(file: Seq<u8>, id: int) -> Seq<u8> {
    let index = read_be32(file, 16) as int;
    let at = read_be32(file, index + 4 + 8 * id) as int;
    let len = read_be32(file, index + 8 + 8 * id) as int;
    file.subrange(at, at + len)
}

/// A store whose offsets fit their fields.
pub open spec fn offsets_fit(c: Contents) -> bool {
    &&& vars_section(c.names).len() <= u32::MAX
    &&& index_offset(c.blocks, c.names) <= u32::MAX
    &&& c.blocks.len() <= u32::MAX
}

/// Every block of a store stands in its file.
pub proof fn blocks_are_found(c: Contents, id: int)
    requires
        0 < id < c.blocks.len(),
        offsets_fit(c),
    ensures
        block_in(archive_bytes(c), id) == c.blocks[id],
{
    stored_blocks_read_back(c.blocks, c.names, id);
}

/// Whether row `row` of the leaf in block `leaf` of a file leads to an entry.
pub open spec fn entry_in(
    file: Seq<u8>,
    leaf: int,
    row: int,
    entry: (Seq<u8>, Seq<u8>),
) -> bool {
    let node = block_in(file, leaf);
    &&& block_in(file, read_be32(node, 12 + 8 * row) as int) == entry.1
    &&& block_in(file, read_be32(node, 16 + 8 * row) as int) == entry.0
}

/// Whether row `row` of the leaf in block `leaf` of a file holds a number and leads
/// to its value.
pub open spec fn raw_entry_in(
    file: Seq<u8>,
    leaf: int,
    row: int,
    entry: (u32, Seq<u8>),
) -> bool {
    let node = block_in(file, leaf);
    &&& block_in(file, read_be32(node, 12 + 8 * row) as int) == entry.1
    &&& read_be32(node, 16 + 8 * row) == entry.0
}

/// Whether a store has all the blocks of another, in front of its own.
pub open spec fn extends(c: Contents, before: Contents) -> bool {
    &&& before.blocks.len() <= c.blocks.len()
    &&& c.blocks.take(before.blocks.len() as int) == before.blocks
}

/// Every entry of a tree is found in the file of any store that the tree is part of.
pub proof fn tree_entries_are_found(
    before: Contents,
    name: Seq<char>,
    entries: Seq<(Seq<u8>, Seq<u8>)>,
    block_size: u32,
    key_size: nat,
    c: Contents,
    e: int,
) -> (place: (int, int))
    requires
        block_size >= 20,
        0 <= e < entries.len(),
        before.blocks.len() > 0,
        extends(c, plus_tree(before, name, entries, block_size, key_size)),
        offsets_fit(c),
    ensures
        entry_in(archive_bytes(c), place.0, place.1, entries[e]),
{
    let base = before.blocks.len();
    let added = tree_blocks(base, entries, block_size, key_size);
    let tree = plus_tree(before, name, entries, block_size, key_size);
    let place = tree_holds_every_entry(base, entries, block_size, key_size, e);
    let (leaf, row, value, key) = place;
    lemma_later_block(c, tree, base + leaf);
    lemma_later_block(c, tree, base + value);
    lemma_later_block(c, tree, base + key);
    assert(tree.blocks[base + leaf] == added[leaf]);
    assert(tree.blocks[base + value] == added[value]);
    assert(tree.blocks[base + key] == added[key]);
    blocks_are_found(c, base + leaf);
    blocks_are_found(c, base + value);
    blocks_are_found(c, base + key);
    (base + leaf, row)
}

proof fn lemma_later_block(c: Contents, before: Contents, id: int)
    requires
        extends(c, before),
        0 <= id < before.blocks.len(),
    ensures
        c.blocks[id] == before.blocks[id],
{
    assert(c.blocks.take(before.blocks.len() as int)[id] == before.blocks[id]);
}

/// The table of a raw-keyed leaf has eight bytes for each entry: the number of the
/// block of its value, then its key.
pub proof fn lemma_raw_table(first: nat, entries: Seq<(u32, Seq<u8>)>, e: int)
    requires
        0 <= e < entries.len(),
    ensures
        raw_table(first, entries).len() == 8 * entries.len(),
        raw_table(first, entries).subrange(8 * e, 8 * e + 4) == be32((first + e) as u32),
        raw_table(first, entries).subrange(8 * e + 4, 8 * e + 8) == be32(entries[e].0),
    decreases entries.len(),
{
    let all = raw_table(first, entries);
    let n = entries.len();
    let rest = raw_table(first, entries.drop_last());
    if n > 1 {
        lemma_raw_table(first, entries.drop_last(), 0);
    }
    assert(rest.len() == 8 * (n - 1));
    if e == n - 1 {
        assert(all.subrange(8 * e, 8 * e + 4) =~= be32((first + e) as u32));
        assert(all.subrange(8 * e + 4, 8 * e + 8) =~= be32(entries[e].0));
    } else {
        lemma_raw_table(first, entries.drop_last(), e);
        assert(all.subrange(8 * e, 8 * e + 4) =~= rest.subrange(8 * e, 8 * e + 4));
        assert(all.subrange(8 * e + 4, 8 * e + 8) =~= rest.subrange(8 * e + 4, 8 * e + 8));
    }
}

/// A row of a raw-keyed leaf leads to the block of its value and holds its key.
pub proof fn lemma_raw_row(
    entries: Seq<(u32, Seq<u8>)>,
    first: nat,
    forward: nat,
    backward: nat,
    block_size: u32,
    e: int,
)
    requires
        12 + 8 * entries.len() <= block_size,
        0 <= e < entries.len(),
        first + entries.len() <= u32::MAX,
    ensures
        row_leads_to(
            raw_leaf(entries, first, forward, backward, block_size),
            e,
            first + e,
            entries[e].0 as int,
        ),
{
    let n = entries.len();
    let table = raw_table(first, entries);
    let head = leaf_head(n, forward, backward);
    let node = raw_leaf(entries, first, forward, backward, block_size);
    lemma_raw_table(first, entries, e);
    assert(head.len() == 12);
    let body = head + table;
    assert(body.len() == 12 + 8 * n);
    assert(node.subrange(12 + 8 * e, 16 + 8 * e) =~= table.subrange(8 * e, 8 * e + 4));
    assert(node.subrange(16 + 8 * e, 20 + 8 * e) =~= table.subrange(8 * e + 4, 8 * e + 8));
    be32_reads_back(node, 12 + 8 * e, (first + e) as u32);
    be32_reads_back(node, 16 + 8 * e, entries[e].0);
}

/// Whether a row of a leaf among `blocks` holds a key and leads to its value; `place`
/// names leaf, row and value, the blocks counted from `base`.
pub open spec fn raw_entry_found_at(
    base: nat,
    blocks: Seq<Seq<u8>>,
    entry: (u32, Seq<u8>),
    place: (int, int, int),
) -> bool {
    let (leaf, row, value) = place;
    &&& 0 <= leaf < blocks.len()
    &&& 0 <= value < blocks.len()
    &&& 0 <= row
    &&& row_leads_to(blocks[leaf], row, base + value, entry.0 as int)
    &&& blocks[value] == entry.1
}

/// A raw-keyed tree holds every one of its entries: some row of one of its leaves
/// holds the entry's key and leads to a block with its value.
pub proof fn raw_tree_holds_every_entry(
    base: nat,
    entries: Seq<(u32, Seq<u8>)>,
    block_size: u32,
    e: int,
) -> (place: (int, int, int))
    requires
        block_size >= 20,
        0 <= e < entries.len(),
        base + raw_tree_blocks(base, entries, block_size).len() <= u32::MAX,
    ensures
        raw_entry_found_at(base, raw_tree_blocks(base, entries, block_size), entries[e], place),
{
    reveal(raw_tree_blocks);
    let n = entries.len();
    let per = per_leaf(block_size);
    let blocks = raw_tree_blocks(base, entries, block_size);
    lemma_leaf_bounds(n, block_size);
    if n <= per {
        assert(blocks[n as int] == raw_leaf(entries, base, 0, 0, block_size));
        assert(blocks[e] == value_blocks(entries)[e]);
        lemma_raw_row(entries, base, 0, 0, block_size, e);
        (n as int, e, e)
    } else {
        let leaves = leaf_count(n, block_size);
        let i = e / per as int;
        let row = e % per as int;
        lemma_place_in_leaf(n, block_size, e);
        let part = batch(entries, i as nat, per);
        let first = (base + leaves + i * per) as nat;
        let nodes = raw_leaves(base, entries, block_size);
        assert(blocks[i] == nodes[i]);
        assert(blocks[leaves + e] == value_blocks(entries)[e]);
        assert(part.len() <= per && row < part.len());
        assert(first + part.len() <= u32::MAX) by {
            assert(i * per + part.len() <= n);
        }
        assert(part[row] == entries[e]);
        lemma_raw_row(
            part,
            first,
            crate::bom::forward_link(base, i as nat, leaves),
            crate::bom::backward_link(base, i as nat),
            block_size,
            row,
        );
        (i, row, leaves + e)
    }
}

/// Every entry of a raw-keyed tree is found in the file of any store that the tree is
/// part of.
pub proof fn raw_entries_are_found(
    before: Contents,
    name: Seq<char>,
    entries: Seq<(u32, Seq<u8>)>,
    block_size: u32,
    c: Contents,
    e: int,
) -> (place: (int, int))
    requires
        block_size >= 20,
        0 <= e < entries.len(),
        before.blocks.len() > 0,
        extends(c, plus_raw_tree(before, name, entries, block_size)),
        offsets_fit(c),
    ensures
        raw_entry_in(archive_bytes(c), place.0, place.1, entries[e]),
{
    let base = before.blocks.len();
    let added = raw_tree_blocks(base, entries, block_size);
    let tree = plus_raw_tree(before, name, entries, block_size);
    let place = raw_tree_holds_every_entry(base, entries, block_size, e);
    let (leaf, row, value) = place;
    lemma_later_block(c, tree, base + leaf);
    lemma_later_block(c, tree, base + value);
    assert(tree.blocks[base + leaf] == added[leaf]);
    assert(tree.blocks[base + value] == added[value]);
    blocks_are_found(c, base + leaf);
    blocks_are_found(c, base + value);
    (base + leaf, row)
}

/// What an archive is made of: the tables, in the order in which they are stored.
pub struct Tables {
    pub header: Seq<u8>,
    pub key_size: nat,
    pub renditions: Seq<(Seq<u8>, Seq<u8>)>,
    pub facets: Seq<(Seq<u8>, Seq<u8>)>,
    pub appearances: Option<Seq<(Seq<u8>, Seq<u8>)>>,
    pub keyformat: Seq<u8>,
    pub metadata: Seq<u8>,
    pub bitmaps: Seq<(u32, Seq<u8>)>,
}

/// The archive of given tables.
pub open spec fn archive_of(t: Tables) -> Contents {
    archive_contents(
        t.header,
        t.key_size,
        t.renditions,
        t.facets,
        t.appearances,
        t.keyformat,
        t.metadata,
        t.bitmaps,
    )
}

/// The store behind the header.
pub open spec fn stage_header(t: Tables) -> Contents {
    plus_block(no_contents(), "CARHEADER"@, t.header)
}

/// The store behind the renditions.
pub open spec fn stage_renditions(t: Tables) -> Contents {
    plus_tree(stage_header(t), "RENDITIONS"@, t.renditions, NODE_SIZE, t.key_size)
}

/// The store behind the facets.
pub open spec fn stage_facets(t: Tables) -> Contents {
    plus_tree(stage_renditions(t), "FACETKEYS"@, t.facets, NODE_SIZE, widest_key(t.facets))
}

/// The store behind the appearances.
pub open spec fn stage_appearances(t: Tables) -> Contents {
    match t.appearances {
        Some(list) => plus_tree(
            stage_facets(t),
            "APPEARANCEKEYS"@,
            list,
            NODE_SIZE,
            widest_key(list),
        ),
        None => stage_facets(t),
    }
}

/// The store behind the key format.
pub open spec fn stage_keyformat(t: Tables) -> Contents {
    plus_block(stage_appearances(t), "KEYFORMAT"@, t.keyformat)
}

/// The store behind the metadata.
pub open spec fn stage_metadata(t: Tables) -> Contents {
    plus_block(stage_keyformat(t), "EXTENDED_METADATA"@, t.metadata)
}

/// Every stage of an archive is in front of what comes later.
pub proof fn lemma_stages(t: Tables)
    ensures
        extends(archive_of(t), stage_header(t)),
        extends(archive_of(t), stage_renditions(t)),
        extends(archive_of(t), stage_facets(t)),
        extends(archive_of(t), stage_appearances(t)),
        extends(archive_of(t), stage_keyformat(t)),
        extends(archive_of(t), stage_metadata(t)),
        archive_of(t) == plus_raw_tree(
            stage_metadata(t),
            "BITMAPKEYS"@,
            t.bitmaps,
            BITMAP_NODE_SIZE,
        ),
        stage_header(t).blocks.len() > 0,
{
    let c = archive_of(t);
    assert(c.blocks.take(stage_metadata(t).blocks.len() as int) =~= stage_metadata(t).blocks);
    assert(c.blocks.take(stage_keyformat(t).blocks.len() as int) =~= stage_keyformat(t).blocks);
    assert(c.blocks.take(stage_appearances(t).blocks.len() as int) =~= stage_appearances(
        t,
    ).blocks);
    assert(c.blocks.take(stage_facets(t).blocks.len() as int) =~= stage_facets(t).blocks);
    assert(c.blocks.take(stage_renditions(t).blocks.len() as int) =~= stage_renditions(t).blocks);
    assert(c.blocks.take(stage_header(t).blocks.len() as int) =~= stage_header(t).blocks);
}

/// Every rendition of an archive is found in its file, with its key.
pub proof fn archives_keep_renditions(t: Tables, e: int) -> (place: (int, int))
    requires
        0 <= e < t.renditions.len(),
        offsets_fit(archive_of(t)),
    ensures
        entry_in(archive_bytes(archive_of(t)), place.0, place.1, t.renditions[e]),
{
    lemma_stages(t);
    tree_entries_are_found(
        stage_header(t),
        "RENDITIONS"@,
        t.renditions,
        NODE_SIZE,
        t.key_size,
        archive_of(t),
        e,
    )
}

/// Every name of an archive is found in its file, with what it stands for.
pub proof fn archives_keep_facets(t: Tables, e: int) -> (place: (int, int))
    requires
        0 <= e < t.facets.len(),
        offsets_fit(archive_of(t)),
    ensures
        entry_in(archive_bytes(archive_of(t)), place.0, place.1, t.facets[e]),
{
    lemma_stages(t);
    tree_entries_are_found(
        stage_renditions(t),
        "FACETKEYS"@,
        t.facets,
        NODE_SIZE,
        widest_key(t.facets),
        archive_of(t),
        e,
    )
}

/// Every appearance of an archive is found in its file, with its number.
pub proof fn archives_keep_appearances(t: Tables, e: int) -> (place: (int, int))
    requires
        t.appearances is Some,
        0 <= e < t.appearances->0.len(),
        offsets_fit(archive_of(t)),
    ensures
        entry_in(archive_bytes(archive_of(t)), place.0, place.1, t.appearances->0[e]),
{
    lemma_stages(t);
    let list = t.appearances->0;
    tree_entries_are_found(
        stage_facets(t),
        "APPEARANCEKEYS"@,
        list,
        NODE_SIZE,
        widest_key(list),
        archive_of(t),
        e,
    )
}

/// Every bitmap of an archive is found in its file, with its identifier.
pub proof fn archives_keep_bitmaps(t: Tables, e: int) -> (place: (int, int))
    requires
        0 <= e < t.bitmaps.len(),
        offsets_fit(archive_of(t)),
    ensures
        raw_entry_in(archive_bytes(archive_of(t)), place.0, place.1, t.bitmaps[e]),
{
    lemma_stages(t);
    assert(archive_of(t).blocks.take(archive_of(t).blocks.len() as int) =~= archive_of(t).blocks);
    raw_entries_are_found(
        stage_metadata(t),
        "BITMAPKEYS"@,
        t.bitmaps,
        BITMAP_NODE_SIZE,
        archive_of(t),
        e,
    )
}

/// The header of an archive is its first block, and the key format and the metadata
/// follow the trees.
pub proof fn archives_keep_blocks(t: Tables)
    requires
        offsets_fit(archive_of(t)),
    ensures
        ({
            let file = archive_bytes(archive_of(t));
            let format = stage_appearances(t).blocks.len() as int;
            &&& block_in(file, 1) == t.header
            &&& block_in(file, format) == t.keyformat
            &&& block_in(file, format + 1) == t.metadata
        }),
{
    lemma_stages(t);
    let c = archive_of(t);
    let format = stage_appearances(t).blocks.len() as int;
    lemma_later_block(c, stage_header(t), 1);
    lemma_later_block(c, stage_keyformat(t), format);
    lemma_later_block(c, stage_metadata(t), format + 1);
    blocks_are_found(c, 1);
    blocks_are_found(c, format);
    blocks_are_found(c, format + 1);
}

/// The number of the last block of a store.
pub open spec fn last_block(c: Contents) -> usize {
    (c.blocks.len() - 1) as usize
}

/// The names of an archive, in order, each with the block it leads to: that of the
/// header of a tree, or the table itself.
pub open spec fn table_names(t: Tables) -> Seq<(Seq<char>, usize)> {
    let first = seq![
        ("CARHEADER"@, last_block(stage_header(t))),
        ("RENDITIONS"@, last_block(stage_renditions(t))),
        ("FACETKEYS"@, last_block(stage_facets(t))),
    ];
    let second = match t.appearances {
        Some(_) => first.push(("APPEARANCEKEYS"@, last_block(stage_appearances(t)))),
        None => first,
    };
    second.push(("KEYFORMAT"@, last_block(stage_keyformat(t)))).push(
        ("EXTENDED_METADATA"@, last_block(stage_metadata(t))),
    ).push(("BITMAPKEYS"@, last_block(archive_of(t))))
}

/// A name that is not there comes last.
proof fn lemma_new_name(names: Seq<(Seq<char>, usize)>, name: Seq<char>, id: usize)
    requires
        forall|i: int| 0 <= i < names.len() ==> (#[trigger] names[i]).0 != name,
    ensures
        with_entry(names, name, id) == names.push((name, id)),
{
}

/// Every table of an archive has its name, and the names stand in the order in which
/// the tables are stored.
pub proof fn archives_name_tables(t: Tables)
    ensures
        archive_of(t).names == table_names(t),
{
    reveal_strlit("CARHEADER");
    reveal_strlit("RENDITIONS");
    reveal_strlit("FACETKEYS");
    reveal_strlit("APPEARANCEKEYS");
    reveal_strlit("KEYFORMAT");
    reveal_strlit("EXTENDED_METADATA");
    reveal_strlit("BITMAPKEYS");
    assert("CARHEADER"@[0] == 'C' && "FACETKEYS"@[0] == 'F' && "KEYFORMAT"@[0] == 'K');
    assert("RENDITIONS"@[0] == 'R' && "BITMAPKEYS"@[0] == 'B');
    assert("EXTENDED_METADATA"@.len() == 17 && "APPEARANCEKEYS"@.len() == 14);
    assert("CARHEADER"@.len() == 9 && "FACETKEYS"@.len() == 9 && "KEYFORMAT"@.len() == 9);
    assert("RENDITIONS"@.len() == 10 && "BITMAPKEYS"@.len() == 10);
    let none = no_contents().names;
    lemma_new_name(none, "CARHEADER"@, last_block(stage_header(t)));
    lemma_new_name(
        stage_header(t).names,
        "RENDITIONS"@,
        last_block(stage_renditions(t)),
    );
    lemma_new_name(stage_renditions(t).names, "FACETKEYS"@, last_block(stage_facets(t)));
    lemma_new_name(
        stage_facets(t).names,
        "APPEARANCEKEYS"@,
        last_block(stage_appearances(t)),
    );
    lemma_new_name(
        stage_appearances(t).names,
        "KEYFORMAT"@,
        last_block(stage_keyformat(t)),
    );
    lemma_new_name(
        stage_keyformat(t).names,
        "EXTENDED_METADATA"@,
        last_block(stage_metadata(t)),
    );
    lemma_new_name(stage_metadata(t).names, "BITMAPKEYS"@, last_block(archive_of(t)));
    lemma_stages(t);
    assert(archive_of(t).names =~= table_names(t));
}

} // verus!
