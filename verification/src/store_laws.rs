//! What a reader finds in the file of a store.

use vstd::prelude::*;
use vstd::utf8::encode_utf8;

use crate::archive::{archive_bytes, BITMAP_NODE_SIZE, NODE_SIZE};
use crate::archive_laws::{
    archive_of, block_in, blocks_are_found, extends, last_block, lemma_stages, offsets_fit,
    stage_appearances, stage_facets, stage_header, stage_keyformat, stage_metadata,
    stage_renditions, Tables,
};
use crate::bom::{
    block_zero_has_no_place, name_record, name_records, no_contents, plus_raw_tree, plus_tree,
    raw_tree_blocks, store_headers_read_back, stored_blocks_read_back, stored_names_read_back,
    tree_blocks, vars_section, widest_key, Contents,
};
use crate::bytes::{be32, be32_reads_back, read_be32};
use crate::index::{has_key, key_at, keys_differ, lemma_with_entry_keeps_keys_apart, with_entry};
use crate::tree_laws::{
    leaves_fit, raw_tree_reads_as, raw_trees_read_back, stand_at, tree_reads_as, trees_read_back,
};

verus! {

/// What holds of the contents of every `BomWriter`: block 0 is there and empty, names
/// differ, and each stands for a block.
pub open spec fn is_store(c: Contents) -> bool {
    &&& c.blocks.len() >= 1
    &&& c.blocks[0].len() == 0
    &&& keys_differ(c.names)
    &&& forall|i: int| 0 <= i < c.names.len() ==> (#[trigger] c.names[i]).1 < c.blocks.len()
}

/// Whether the length of every name fits its field.
pub open spec fn names_fit(names: Seq<(Seq<char>, usize)>) -> bool {
    forall|i: int| 0 <= i < names.len() ==> encode_utf8((#[trigger] names[i]).0).len() <= u8::MAX
}

/// All the blocks of a file, read through the index that the header leads to.
pub open spec fn blocks_in(file: Seq<u8>) -> Seq<Seq<u8>> {
    Seq::new(read_be32(file, 12), |i: int| block_in(file, i))
}

/// The names in `n` records from `at` on, each with its block.
pub open spec fn records_at(file: Seq<u8>, at: int, n: nat) -> Seq<(Seq<u8>, int)>
    decreases n,
{
    if n == 0 {
        Seq::empty()
    } else {
        let len = file[at + 4] as int;
        seq![(file.subrange(at + 5, at + 5 + len), read_be32(file, at) as int)] + records_at(
            file,
            at + 5 + len,
            (n - 1) as nat,
        )
    }
}

/// The names in a file, each with its block, read where the header leads to.
pub open spec fn names_in(file: Seq<u8>) -> Seq<(Seq<u8>, int)> {
    let at = read_be32(file, 24) as int;
    records_at(file, at + 4, read_be32(file, at))
}

/// Names in UTF-8, each with its block.
pub open spec fn encoded_names(names: Seq<(Seq<char>, usize)>) -> Seq<(Seq<u8>, int)> {
    Seq::new(names.len(), |i: int| (encode_utf8(names[i].0), names[i].1 as int))
}

/// All the blocks of a store are read back from its file.
pub proof fn files_give_back_their_blocks(c: Contents)
    requires
        c.blocks.len() >= 1,
        c.blocks[0].len() == 0,
        offsets_fit(c),
    ensures
        blocks_in(archive_bytes(c)) == c.blocks,
{
    let file = archive_bytes(c);
    store_headers_read_back(c.blocks, c.names);
    let found = blocks_in(file);
    assert forall|i: int| 0 <= i < c.blocks.len() implies found[i] == c.blocks[i] by {
        if i == 0 {
            block_zero_has_no_place(c.blocks, c.names);
            assert(block_in(file, 0) =~= c.blocks[0]);
        } else {
            blocks_are_found(c, i);
        }
    }
    assert(found =~= c.blocks);
}

/// The first record stands in front of the others.
proof fn lemma_first_record(names: Seq<(Seq<char>, usize)>)
    requires
        names.len() > 0,
    ensures
        name_records(names) == name_record(names[0]) + name_records(names.skip(1)),
    decreases names.len(),
{
    if names.len() == 1 {
        assert(names.drop_last() =~= Seq::empty());
        assert(names.skip(1) =~= Seq::empty());
        assert(name_records(names) =~= name_record(names[0]) + name_records(names.skip(1)));
    } else {
        lemma_first_record(names.drop_last());
        assert(names.drop_last().skip(1) =~= names.skip(1).drop_last());
        assert(names.skip(1).last() == names.last());
        assert(name_records(names) =~= name_record(names[0]) + name_records(names.skip(1)));
    }
}

/// A record has five bytes in front of its name.
proof fn lemma_records_len(names: Seq<(Seq<char>, usize)>)
    ensures
        name_records(names).len() >= 5 * names.len(),
    decreases names.len(),
{
    if names.len() > 0 {
        lemma_records_len(names.drop_last());
    }
}

/// The fields of a record.
proof fn lemma_record_fields(file: Seq<u8>, at: int, name: (Seq<char>, usize))
    requires
        0 <= at,
        at + name_record(name).len() <= file.len(),
        file.subrange(at, at + name_record(name).len()) == name_record(name),
        encode_utf8(name.0).len() <= u8::MAX,
        name.1 <= u32::MAX,
    ensures
        name_record(name).len() == 5 + encode_utf8(name.0).len(),
        read_be32(file, at) == name.1,
        file[at + 4] == encode_utf8(name.0).len(),
        file.subrange(at + 5, at + 5 + encode_utf8(name.0).len()) == encode_utf8(name.0),
{
    let record = name_record(name);
    let text = encode_utf8(name.0);
    assert(be32(name.1 as u32).len() == 4);
    assert(file.subrange(at, at + 4) =~= record.subrange(0, 4));
    assert(record.subrange(0, 4) =~= be32(name.1 as u32));
    be32_reads_back(file, at, name.1 as u32);
    assert(file[at + 4] == record[4]);
    assert(file.subrange(at + 5, at + 5 + text.len()) =~= record.subrange(
        5,
        (5 + text.len()) as int,
    ));
    assert(record.subrange(5, (5 + text.len()) as int) =~= text);
}

/// Records give back the names they were made of.
proof fn lemma_records_read_back(file: Seq<u8>, at: int, names: Seq<(Seq<char>, usize)>)
    requires
        0 <= at,
        at + name_records(names).len() <= file.len(),
        file.subrange(at, at + name_records(names).len()) == name_records(names),
        names_fit(names),
        forall|i: int| 0 <= i < names.len() ==> (#[trigger] names[i]).1 <= u32::MAX,
    ensures
        records_at(file, at, names.len()) == encoded_names(names),
    decreases names.len(),
{
    if names.len() == 0 {
        assert(records_at(file, at, 0) =~= encoded_names(names));
    } else {
        let all = name_records(names);
        let record = name_record(names[0]);
        let rest = names.skip(1);
        lemma_first_record(names);
        assert(file.subrange(at, at + record.len()) =~= all.subrange(0, record.len() as int));
        assert(all.subrange(0, record.len() as int) =~= record);
        lemma_record_fields(file, at, names[0]);
        let next = at + record.len();
        assert(file.subrange(next, next + name_records(rest).len()) =~= all.subrange(
            record.len() as int,
            all.len() as int,
        ));
        assert(all.subrange(record.len() as int, all.len() as int) =~= name_records(rest));
        assert forall|i: int| 0 <= i < rest.len() implies encode_utf8((#[trigger] rest[i]).0).len()
            <= u8::MAX && rest[i].1 <= u32::MAX by {
            assert(rest[i] == names[i + 1]);
        }
        lemma_records_read_back(file, next, rest);
        assert(records_at(file, at, names.len()) =~= encoded_names(names));
    }
}

/// The names of a store are read back from its file, each with its block, in their
/// order.
pub proof fn files_give_back_their_names(c: Contents)
    requires
        is_store(c),
        offsets_fit(c),
        names_fit(c.names),
    ensures
        names_in(archive_bytes(c)) == encoded_names(c.names),
{
    let file = archive_bytes(c);
    let names = c.names;
    let at = read_be32(file, 24) as int;
    let len = read_be32(file, 28) as int;
    let section = vars_section(names);
    stored_names_read_back(c.blocks, names);
    lemma_records_len(names);
    assert(be32(names.len() as u32).len() == 4);
    assert(section.len() == 4 + name_records(names).len());
    assert(file.subrange(at, at + 4) =~= section.subrange(0, 4));
    assert(section.subrange(0, 4) =~= be32(names.len() as u32));
    be32_reads_back(file, at, names.len() as u32);
    assert(file.subrange(at + 4, at + 4 + name_records(names).len()) =~= section.subrange(
        4,
        section.len() as int,
    ));
    assert(section.subrange(4, section.len() as int) =~= name_records(names));
    lemma_records_read_back(file, at + 4, names);
}

/// A store reads back from its file: the mark of a store, version 1, how many blocks
/// there are, all of them, at offsets that are multiples of sixteen, and all names,
/// each once and with its block.
pub proof fn stores_read_back(c: Contents)
    requires
        is_store(c),
        offsets_fit(c),
        names_fit(c.names),
    ensures
        ({
            let file = archive_bytes(c);
            let index = read_be32(file, 16) as int;
            &&& file.take(8) == seq![66u8, 79, 77, 83, 116, 111, 114, 101]
            &&& read_be32(file, 8) == 1
            &&& read_be32(file, 12) == c.blocks.len()
            &&& blocks_in(file) == c.blocks
            &&& forall|i: int|
                0 < i < c.blocks.len() ==> #[trigger] read_be32(file, index + 4 + 8 * i) % 16 == 0
            &&& names_in(file) == encoded_names(c.names)
            &&& keys_differ(c.names)
        }),
{
    let file = archive_bytes(c);
    let index = read_be32(file, 16) as int;
    store_headers_read_back(c.blocks, c.names);
    files_give_back_their_blocks(c);
    files_give_back_their_names(c);
    assert forall|i: int| 0 < i < c.blocks.len() implies #[trigger] read_be32(
        file,
        index + 4 + 8 * i,
    ) % 16 == 0 by {
        stored_blocks_read_back(c.blocks, c.names, i);
    }
}

/// The names of a store that were given to blocks one after the other.
pub open spec fn named(given: Seq<(Seq<char>, usize)>) -> Seq<(Seq<char>, usize)>
    decreases given.len(),
{
    if given.len() == 0 {
        Seq::empty()
    } else {
        with_entry(named(given.drop_last()), given.last().0, given.last().1)
    }
}

/// Whether a name was first given at place `i`.
pub open spec fn is_first(given: Seq<(Seq<char>, usize)>, i: int, name: Seq<char>) -> bool {
    &&& 0 <= i < given.len()
    &&& given[i].0 == name
    &&& forall|j: int| 0 <= j < i ==> (#[trigger] given[j]).0 != name
}

/// Whether a name was last given at place `i`.
pub open spec fn is_last(given: Seq<(Seq<char>, usize)>, i: int, name: Seq<char>) -> bool {
    &&& 0 <= i < given.len()
    &&& given[i].0 == name
    &&& forall|j: int| i < j < given.len() ==> (#[trigger] given[j]).0 != name
}

/// Whether a name was last given to a block.
pub open spec fn last_given(given: Seq<(Seq<char>, usize)>, name: (Seq<char>, usize)) -> bool {
    exists|i: int| #[trigger] is_last(given, i, name.0) && given[i] == name
}

/// Whether a name was given at all.
pub open spec fn was_given(given: Seq<(Seq<char>, usize)>, name: Seq<char>) -> bool {
    exists|i: int| #[trigger] is_first(given, i, name)
}

/// Every name that was given is there once, with the block it was last given to, and
/// the names stand in the order in which they were first given.
pub proof fn names_keep_their_place(given: Seq<(Seq<char>, usize)>)
    ensures
        keys_differ(named(given)),
        forall|i: int| 0 <= i < given.len() ==> has_key(named(given), (#[trigger] given[i]).0),
        forall|k: int|
            0 <= k < named(given).len() ==> last_given(given, #[trigger] named(given)[k])
                && was_given(given, named(given)[k].0),
        forall|k: int, l: int, i: int, j: int|
            0 <= k < l < named(given).len() && #[trigger] is_first(given, i, named(given)[k].0)
                && #[trigger] is_first(given, j, named(given)[l].0) ==> i < j,
{
    lemma_names_are_there(given);
    assert forall|k: int| 0 <= k < named(given).len() implies last_given(
        given,
        #[trigger] named(given)[k],
    ) && was_given(given, named(given)[k].0) by {
        let last = lemma_last_given(given, k);
        let first = lemma_first_given(given, k);
        assert(is_last(given, last, named(given)[k].0));
        assert(is_first(given, first, named(given)[k].0));
    }
    assert forall|k: int, l: int, i: int, j: int|
        0 <= k < l < named(given).len() && #[trigger] is_first(given, i, named(given)[k].0)
            && #[trigger] is_first(given, j, named(given)[l].0) implies i < j by {
        lemma_in_order(given, k, l, i, j);
    }
}

proof fn lemma_names_are_there(given: Seq<(Seq<char>, usize)>)
    ensures
        keys_differ(named(given)),
        forall|i: int| 0 <= i < given.len() ==> has_key(named(given), (#[trigger] given[i]).0),
    decreases given.len(),
{
    if given.len() > 0 {
        let rest = given.drop_last();
        let before = named(rest);
        let (name, id) = given.last();
        lemma_names_are_there(rest);
        lemma_with_entry_keeps_keys_apart(before, name, id);
        assert forall|i: int| 0 <= i < given.len() implies has_key(
            named(given),
            (#[trigger] given[i]).0,
        ) by {
            if i < given.len() - 1 {
                assert(rest[i] == given[i]);
                lemma_key_stays(before, name, id, given[i].0);
            } else {
                lemma_key_is_set(before, name, id);
            }
        }
    }
}

/// Where a name was last given.
proof fn lemma_last_given(given: Seq<(Seq<char>, usize)>, k: int) -> (i: int)
    requires
        0 <= k < named(given).len(),
    ensures
        is_last(given, i, named(given)[k].0),
        given[i] == named(given)[k],
    decreases given.len(),
{
    let rest = given.drop_last();
    let before = named(rest);
    let (name, id) = given.last();
    let end = given.len() - 1;
    lemma_names_are_there(rest);
    lemma_other_keys_stay(before, name, id, k);
    if named(given)[k] == (name, id) {
        end
    } else {
        let i = lemma_last_given(rest, k);
        assert(given[i] == rest[i]);
        assert forall|j: int| i < j < given.len() implies (#[trigger] given[j]).0
            != before[k].0 by {
            if j < end {
                assert(rest[j] == given[j]);
            }
        }
        i
    }
}

/// Where a name was first given.
proof fn lemma_first_given(given: Seq<(Seq<char>, usize)>, k: int) -> (i: int)
    requires
        0 <= k < named(given).len(),
    ensures
        is_first(given, i, named(given)[k].0),
        k < named(given.drop_last()).len() ==> is_first(given.drop_last(), i, named(given)[k].0),
        k >= named(given.drop_last()).len() ==> i == given.len() - 1,
    decreases given.len(),
{
    let rest = given.drop_last();
    let before = named(rest);
    let (name, id) = given.last();
    lemma_names_are_there(rest);
    lemma_keys_in_place(before, name, id);
    if k < before.len() {
        assert(named(given)[k].0 == before[k].0);
        let i = lemma_first_given(rest, k);
        lemma_first_stays(given, i, before[k].0);
        i
    } else {
        lemma_new_is_first(given);
        given.len() - 1
    }
}

proof fn lemma_in_order(given: Seq<(Seq<char>, usize)>, k: int, l: int, i: int, j: int)
    requires
        0 <= k < l < named(given).len(),
        is_first(given, i, named(given)[k].0),
        is_first(given, j, named(given)[l].0),
    ensures
        i < j,
    decreases given.len(),
{
    let rest = given.drop_last();
    let before = named(rest);
    let (name, id) = given.last();
    lemma_keys_in_place(before, name, id);
    let a = lemma_first_given(given, k);
    let b = lemma_first_given(given, l);
    lemma_one_first(given, a, i, named(given)[k].0);
    lemma_one_first(given, b, j, named(given)[l].0);
    if l < before.len() {
        assert(named(given)[k].0 == before[k].0);
        assert(named(given)[l].0 == before[l].0);
        lemma_in_order(rest, k, l, a, b);
    }
}

proof fn lemma_key_is_set(entries: Seq<(Seq<char>, usize)>, key: Seq<char>, value: usize)
    ensures
        has_key(with_entry(entries, key, value), key),
{
    let after = with_entry(entries, key, value);
    if has_key(entries, key) {
        assert(after[key_at(entries, key)].0 == key);
    } else {
        assert(after[entries.len() as int].0 == key);
    }
}

proof fn lemma_key_stays(
    entries: Seq<(Seq<char>, usize)>,
    key: Seq<char>,
    value: usize,
    other: Seq<char>,
)
    requires
        has_key(entries, other),
    ensures
        has_key(with_entry(entries, key, value), other),
{
    let after = with_entry(entries, key, value);
    let i = choose|i: int| 0 <= i < entries.len() && #[trigger] entries[i].0 == other;
    assert(after[i].0 == other);
}

/// Keys that are there keep their places.
proof fn lemma_keys_in_place(entries: Seq<(Seq<char>, usize)>, key: Seq<char>, value: usize)
    ensures
        ({
            let after = with_entry(entries, key, value);
            &&& has_key(entries, key) ==> after.len() == entries.len()
            &&& !has_key(entries, key) ==> after.len() == entries.len() + 1
                && after[entries.len() as int] == (key, value)
            &&& forall|k: int| 0 <= k < entries.len() ==> (#[trigger] after[k]).0 == entries[k].0
        }),
{
}

/// Only the entry of the key changes.
proof fn lemma_other_keys_stay(
    entries: Seq<(Seq<char>, usize)>,
    key: Seq<char>,
    value: usize,
    k: int,
)
    requires
        keys_differ(entries),
        0 <= k < with_entry(entries, key, value).len(),
    ensures
        ({
            let after = with_entry(entries, key, value);
            after[k] == (key, value) || k < entries.len() && after[k] == entries[k]
                && entries[k].0 != key
        }),
{
    if has_key(entries, key) && k < entries.len() {
        let at = key_at(entries, key);
        assert(entries[at].0 == key);
        if k != at {
            assert(entries[k].0 != entries[at].0);
        }
    } else if k < entries.len() && entries[k].0 == key {
        assert(has_key(entries, key));
    }
}

proof fn lemma_first_stays(given: Seq<(Seq<char>, usize)>, i: int, name: Seq<char>)
    requires
        given.len() > 0,
        is_first(given.drop_last(), i, name),
    ensures
        is_first(given, i, name),
{
    let rest = given.drop_last();
    assert forall|j: int| 0 <= j < i implies (#[trigger] given[j]).0 != name by {
        assert(rest[j] == given[j]);
    }
}

/// A name that is not there yet is given for the first time.
proof fn lemma_new_is_first(given: Seq<(Seq<char>, usize)>)
    requires
        given.len() > 0,
        !has_key(named(given.drop_last()), given.last().0),
        forall|i: int|
            0 <= i < given.len() - 1 ==> has_key(
                named(given.drop_last()),
                (#[trigger] given.drop_last()[i]).0,
            ),
    ensures
        is_first(given, given.len() - 1, given.last().0),
{
    let rest = given.drop_last();
    assert forall|j: int| 0 <= j < given.len() - 1 implies (#[trigger] given[j]).0
        != given.last().0 by {
        assert(rest[j] == given[j]);
    }
}

proof fn lemma_one_first(given: Seq<(Seq<char>, usize)>, i: int, j: int, name: Seq<char>)
    requires
        is_first(given, i, name),
        is_first(given, j, name),
    ensures
        i == j,
{
}

/// A tree that is added to a store reads back from any store that keeps what is there:
/// the name leads to its header, the blocks from before are unchanged, and its leaves
/// give its entries.
pub proof fn added_trees_read_back(
    before: Contents,
    name: Seq<char>,
    entries: Seq<(Seq<u8>, Seq<u8>)>,
    block_size: u32,
    key_size: nat,
    c: Contents,
)
    requires
        block_size >= 12,
        entries.len() > 0 ==> block_size >= 20,
        leaves_fit(entries.len(), block_size),
        keys_differ(before.names),
        extends(c, plus_tree(before, name, entries, block_size, key_size)),
        c.blocks.len() <= u32::MAX,
    ensures
        ({
            let after = plus_tree(before, name, entries, block_size, key_size);
            let id = after.blocks.len() - 1;
            &&& extends(after, before)
            &&& has_key(after.names, name)
            &&& after.names[key_at(after.names, name)] == (name, id as usize)
            &&& tree_reads_as(c.blocks, id, entries, block_size)
        }),
{
    let after = plus_tree(before, name, entries, block_size, key_size);
    let base = before.blocks.len();
    let added = tree_blocks(base, entries, block_size, key_size);
    assert(after.blocks.take(base as int) =~= before.blocks);
    lemma_named_last(before.names, name, (after.blocks.len() - 1) as usize);
    lemma_stands(c, before, added, after);
    trees_read_back(c.blocks, base, entries, block_size, key_size);
}

/// The same of a raw-keyed tree.
pub proof fn added_raw_trees_read_back(
    before: Contents,
    name: Seq<char>,
    entries: Seq<(u32, Seq<u8>)>,
    block_size: u32,
    c: Contents,
)
    requires
        block_size >= 12,
        entries.len() > 0 ==> block_size >= 20,
        leaves_fit(entries.len(), block_size),
        keys_differ(before.names),
        extends(c, plus_raw_tree(before, name, entries, block_size)),
        c.blocks.len() <= u32::MAX,
    ensures
        ({
            let after = plus_raw_tree(before, name, entries, block_size);
            let id = after.blocks.len() - 1;
            &&& extends(after, before)
            &&& has_key(after.names, name)
            &&& after.names[key_at(after.names, name)] == (name, id as usize)
            &&& raw_tree_reads_as(c.blocks, id, entries, block_size)
        }),
{
    let after = plus_raw_tree(before, name, entries, block_size);
    let base = before.blocks.len();
    let added = raw_tree_blocks(base, entries, block_size);
    assert(after.blocks.take(base as int) =~= before.blocks);
    lemma_named_last(before.names, name, (after.blocks.len() - 1) as usize);
    lemma_stands(c, before, added, after);
    raw_trees_read_back(c.blocks, base, entries, block_size);
}

/// A name leads to the block that it was last given to.
proof fn lemma_named_last(names: Seq<(Seq<char>, usize)>, name: Seq<char>, id: usize)
    requires
        keys_differ(names),
    ensures
        has_key(with_entry(names, name, id), name),
        with_entry(names, name, id)[key_at(with_entry(names, name, id), name)] == (name, id),
{
    let after = with_entry(names, name, id);
    lemma_key_is_set(names, name, id);
    lemma_with_entry_keeps_keys_apart(names, name, id);
    lemma_other_keys_stay(names, name, id, key_at(after, name));
}

proof fn lemma_stands(c: Contents, before: Contents, added: Seq<Seq<u8>>, after: Contents)
    requires
        after.blocks == before.blocks + added,
        extends(c, after),
    ensures
        stand_at(c.blocks, before.blocks.len(), added),
{
    let base = before.blocks.len();
    let kept = c.blocks.take(after.blocks.len() as int);
    assert forall|j: int| 0 <= j < added.len() implies c.blocks[base + j]
        == #[trigger] added[j] by {
        assert(kept[base + j] == c.blocks[base + j]);
        assert(after.blocks[base + j] == added[j]);
    }
}

/// The names of an archive differ at every stage.
proof fn lemma_stage_names(t: Tables)
    ensures
        keys_differ(stage_header(t).names),
        keys_differ(stage_renditions(t).names),
        keys_differ(stage_facets(t).names),
        keys_differ(stage_appearances(t).names),
        keys_differ(stage_metadata(t).names),
{
    let none = no_contents().names;
    lemma_with_entry_keeps_keys_apart(none, "CARHEADER"@, last_block(stage_header(t)));
    lemma_with_entry_keeps_keys_apart(
        stage_header(t).names,
        "RENDITIONS"@,
        last_block(stage_renditions(t)),
    );
    lemma_with_entry_keeps_keys_apart(
        stage_renditions(t).names,
        "FACETKEYS"@,
        last_block(stage_facets(t)),
    );
    lemma_with_entry_keeps_keys_apart(
        stage_facets(t).names,
        "APPEARANCEKEYS"@,
        last_block(stage_appearances(t)),
    );
    lemma_with_entry_keeps_keys_apart(
        stage_appearances(t).names,
        "KEYFORMAT"@,
        last_block(stage_keyformat(t)),
    );
    lemma_with_entry_keeps_keys_apart(
        stage_keyformat(t).names,
        "EXTENDED_METADATA"@,
        last_block(stage_metadata(t)),
    );
}

/// Every tree of an archive reads back from its file: the renditions, the names, the
/// appearances and the bitmaps, each with its entries in order and nothing else.
pub proof fn archives_give_back_their_trees(t: Tables)
    requires
        offsets_fit(archive_of(t)),
    ensures
        ({
            let blocks = blocks_in(archive_bytes(archive_of(t)));
            &&& blocks == archive_of(t).blocks
            &&& tree_reads_as(
                blocks,
                last_block(stage_renditions(t)) as int,
                t.renditions,
                NODE_SIZE,
            )
            &&& tree_reads_as(blocks, last_block(stage_facets(t)) as int, t.facets, NODE_SIZE)
            &&& t.appearances matches Some(list) ==> tree_reads_as(
                blocks,
                last_block(stage_appearances(t)) as int,
                list,
                NODE_SIZE,
            )
            &&& raw_tree_reads_as(
                blocks,
                last_block(archive_of(t)) as int,
                t.bitmaps,
                BITMAP_NODE_SIZE,
            )
        }),
{
    let c = archive_of(t);
    lemma_stages(t);
    lemma_stage_names(t);
    files_give_back_their_blocks(c);
    added_trees_read_back(
        stage_header(t),
        "RENDITIONS"@,
        t.renditions,
        NODE_SIZE,
        t.key_size,
        c,
    );
    added_trees_read_back(
        stage_renditions(t),
        "FACETKEYS"@,
        t.facets,
        NODE_SIZE,
        widest_key(t.facets),
        c,
    );
    match t.appearances {
        Some(list) => {
            added_trees_read_back(
                stage_facets(t),
                "APPEARANCEKEYS"@,
                list,
                NODE_SIZE,
                widest_key(list),
                c,
            );
        },
        None => {},
    }
    assert(c.blocks.take(c.blocks.len() as int) =~= c.blocks);
    added_raw_trees_read_back(stage_metadata(t), "BITMAPKEYS"@, t.bitmaps, BITMAP_NODE_SIZE, c);
}

} // verus!
