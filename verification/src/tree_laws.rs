//! What a reader finds in the leaves of a tree.

use vstd::prelude::*;

use crate::archive_laws::{lemma_raw_row, lemma_raw_table};
use crate::bom::{
    backward_link, batch, branch_head, branch_table, empty_leaf, entry_blocks, forward_link,
    leaf_count, leaf_head, leaf_node, leaf_nodes, lemma_deep_tree_parts, lemma_leaf_bounds,
    lemma_leaf_prefix, lemma_leaf_row, per_leaf, raw_branch_table, raw_leaf, raw_leaves, raw_table,
    raw_tree_blocks, row_leads_to, tree_blocks, tree_header, value_blocks, TREE_MAGIC,
};
use crate::bytes::{be16, be16_reads_back, be32, be32_reads_back, read_be16, read_be32};

verus! {

/// How many leaves a tree of `n` entries has; a tree without entries has one.
pub open spec fn leaves_of(n: nat, block_size: u32) -> nat {
    if n <= per_leaf(block_size) {
        1
    } else {
        leaf_count(n, block_size)
    }
}

/// Which of the blocks of a tree the first leaf is.
pub open spec fn first_leaf(n: nat, block_size: u32) -> nat {
    if n <= per_leaf(block_size) {
        2 * n
    } else {
        0
    }
}

/// Whether no leaf of a tree of `n` entries holds more of them than its head can say.
pub open spec fn leaves_fit(n: nat, block_size: u32) -> bool {
    n <= u16::MAX || per_leaf(block_size) <= u16::MAX
}

/// Whether blocks stand in a store from number `base` on.
pub open spec fn stand_at(store: Seq<Seq<u8>>, base: nat, blocks: Seq<Seq<u8>>) -> bool {
    &&& base + blocks.len() <= store.len()
    &&& forall|j: int| 0 <= j < blocks.len() ==> store[base + j] == #[trigger] blocks[j]
}

/// The entries that the rows of a leaf lead to.
pub open spec fn leaf_entries(store: Seq<Seq<u8>>, leaf: Seq<u8>) -> Seq<(Seq<u8>, Seq<u8>)> {
    Seq::new(
        read_be16(leaf, 2),
        |row: int|
            (
                store[read_be32(leaf, 16 + 8 * row) as int],
                store[read_be32(leaf, 12 + 8 * row) as int],
            ),
    )
}

/// The entries of at most `n` leaves, from block `at` on, each followed by the one that
/// it names as the next.
pub open spec fn entries_from(store: Seq<Seq<u8>>, at: int, n: nat) -> Seq<(Seq<u8>, Seq<u8>)>
    decreases n,
{
    if n == 0 {
        Seq::empty()
    } else {
        let leaf = store[at];
        let next = read_be32(leaf, 4) as int;
        leaf_entries(store, leaf) + if next == 0 {
            Seq::empty()
        } else {
            entries_from(store, next, (n - 1) as nat)
        }
    }
}

/// The first leaf under a root: the root itself, or the one that an inner node names
/// in front of its table.
pub open spec fn first_leaf_under(store: Seq<Seq<u8>>, root: int) -> int {
    if read_be16(store[root], 0) == 1 {
        root
    } else {
        read_be32(store[root], 12) as int
    }
}

/// Whether a block is leaf `i` of `leaves`, the first of which is block `first`: it
/// holds no more than `per` entries and names the leaves before and behind it.
pub open spec fn is_leaf_of(
    store: Seq<Seq<u8>>,
    first: int,
    leaves: nat,
    per: nat,
    i: int,
) -> bool {
    let leaf = store[first + i];
    &&& read_be16(leaf, 0) == 1
    &&& read_be16(leaf, 2) <= per
    &&& read_be32(leaf, 4) == if i + 1 < leaves {
        first + i + 1
    } else {
        0
    }
    &&& read_be32(leaf, 8) == if i > 0 {
        first + i - 1
    } else {
        0
    }
}

/// Whether a block is the header of a tree of `n` entries: its mark, version 1, the
/// size of its nodes, how many entries it has, and whether their keys are numbers;
/// the leaves under its root hold no more entries than they have room for and name
/// their neighbours.
pub open spec fn is_tree_of(
    store: Seq<Seq<u8>>,
    id: int,
    n: nat,
    block_size: u32,
    flag: u8,
) -> bool {
    let header = store[id];
    let first = first_leaf_under(store, read_be32(header, 8) as int);
    &&& header.take(4) == seq![116u8, 114, 101, 101]
    &&& read_be32(header, 4) == 1
    &&& read_be32(header, 12) == block_size
    &&& read_be32(header, 16) == n
    &&& header[20] == flag
    &&& forall|i: int|
        0 <= i < leaves_of(n, block_size) ==> #[trigger] is_leaf_of(
            store,
            first,
            leaves_of(n, block_size),
            per_leaf(block_size),
            i,
        )
}

/// Whether a block is the header of a tree with these entries: read from the first
/// under its root to the last, each naming the next, its leaves give them in order,
/// and nothing else.
pub open spec fn tree_reads_as(
    store: Seq<Seq<u8>>,
    id: int,
    entries: Seq<(Seq<u8>, Seq<u8>)>,
    block_size: u32,
) -> bool {
    &&& is_tree_of(store, id, entries.len(), block_size, 0)
    &&& entries_from(
        store,
        first_leaf_under(store, read_be32(store[id], 8) as int),
        store.len(),
    ) == entries
}

/// The mark of a tree.
proof fn lemma_tree_mark()
    ensures
        be32(TREE_MAGIC) == seq![116u8, 114, 101, 101],
{
    assert(be32(TREE_MAGIC) =~= seq![116u8, 114, 101, 101]);
}

/// Where five fields of four bytes and what follows them stand.
proof fn lemma_five_fields(
    a: Seq<u8>,
    b: Seq<u8>,
    c: Seq<u8>,
    d: Seq<u8>,
    e: Seq<u8>,
    flag: Seq<u8>,
    rest: Seq<u8>,
    last: Seq<u8>,
)
    requires
        a.len() == 4 && b.len() == 4 && c.len() == 4 && d.len() == 4 && e.len() == 4,
        flag.len() == 1,
    ensures
        ({
            let all = a + b + c + d + e + flag + rest + last;
            &&& all.len() >= 21
            &&& all.take(4) == a
            &&& all.subrange(4, 8) == b
            &&& all.subrange(8, 12) == c
            &&& all.subrange(12, 16) == d
            &&& all.subrange(16, 20) == e
            &&& all[20] == flag[0]
        }),
{
    let all = a + b + c + d + e + flag + rest + last;
    assert(all.take(4) =~= a);
    assert(all.subrange(4, 8) =~= b);
    assert(all.subrange(8, 12) =~= c);
    assert(all.subrange(12, 16) =~= d);
    assert(all.subrange(16, 20) =~= e);
}

/// A tree header tells its fields.
proof fn lemma_tree_header(root: nat, block_size: u32, n: nat, flag: u8, key_size: nat)
    requires
        root <= u32::MAX,
        n <= u32::MAX,
    ensures
        ({
            let header = tree_header(root, block_size, n, flag, key_size);
            &&& header.take(4) == seq![116u8, 114, 101, 101]
            &&& read_be32(header, 4) == 1
            &&& read_be32(header, 8) == root
            &&& read_be32(header, 12) == block_size
            &&& read_be32(header, 16) == n
            &&& header[20] == flag
        }),
{
    let header = tree_header(root, block_size, n, flag, key_size);
    lemma_tree_mark();
    lemma_five_fields(
        be32(TREE_MAGIC),
        be32(1),
        be32(root as u32),
        be32(block_size),
        be32(n as u32),
        seq![flag],
        be32(key_size as u32),
        be32(0),
    );
    be32_reads_back(header, 4, 1);
    be32_reads_back(header, 8, root as u32);
    be32_reads_back(header, 12, block_size);
    be32_reads_back(header, 16, n as u32);
}

/// Whether a block is the header of a tree whose first leaf is block `first`.
spec fn leads_to_leaf(
    store: Seq<Seq<u8>>,
    id: int,
    n: nat,
    block_size: u32,
    flag: u8,
    first: int,
) -> bool {
    let header = store[id];
    &&& header.take(4) == seq![116u8, 114, 101, 101]
    &&& read_be32(header, 4) == 1
    &&& first_leaf_under(store, read_be32(header, 8) as int) == first
    &&& read_be32(header, 12) == block_size
    &&& read_be32(header, 16) == n
    &&& header[20] == flag
}

/// An inner node is none of the leaves, and names the first of them.
proof fn lemma_branch_head(base: nat, leaves: nat, table: Seq<u8>)
    requires
        base <= u32::MAX,
    ensures
        read_be16(branch_head(base, leaves) + table, 0) == 0,
        read_be32(branch_head(base, leaves) + table, 12) == base,
{
    let node = branch_head(base, leaves) + table;
    assert(node.subrange(0, 2) =~= be16(0));
    assert(node.subrange(12, 16) =~= be32(base as u32));
    be16_reads_back(node, 0, 0);
    be32_reads_back(node, 12, base as u32);
}

/// The head of a leaf: that it is one, how many rows it has, and its neighbours.
proof fn lemma_leaf_head(leaf: Seq<u8>, n: nat, forward: nat, backward: nat)
    requires
        leaf.len() >= 12,
        leaf.take(12) == leaf_head(n, forward, backward),
        n <= u16::MAX,
        forward <= u32::MAX,
        backward <= u32::MAX,
    ensures
        read_be16(leaf, 0) == 1,
        read_be16(leaf, 2) == n,
        read_be32(leaf, 4) == forward,
        read_be32(leaf, 8) == backward,
{
    let head = leaf.take(12);
    assert(leaf.subrange(0, 2) =~= head.subrange(0, 2));
    assert(leaf.subrange(2, 4) =~= head.subrange(2, 4));
    assert(leaf.subrange(4, 8) =~= head.subrange(4, 8));
    assert(leaf.subrange(8, 12) =~= head.subrange(8, 12));
    assert(head.subrange(0, 2) =~= be16(1));
    assert(head.subrange(2, 4) =~= be16(n as u16));
    assert(head.subrange(4, 8) =~= be32(forward as u32));
    assert(head.subrange(8, 12) =~= be32(backward as u32));
    be16_reads_back(leaf, 0, 1);
    be16_reads_back(leaf, 2, n as u16);
    be32_reads_back(leaf, 4, forward as u32);
    be32_reads_back(leaf, 8, backward as u32);
}

/// What a block shows that is a leaf.
spec fn shows_leaf(
    store: Seq<Seq<u8>>,
    at: int,
    part: Seq<(Seq<u8>, Seq<u8>)>,
    forward: nat,
    backward: nat,
) -> bool {
    &&& read_be16(store[at], 0) == 1
    &&& read_be32(store[at], 4) == forward
    &&& read_be32(store[at], 8) == backward
    &&& leaf_entries(store, store[at]) == part
}

/// What a leaf with the given entries, whose blocks begin at `first`, shows.
proof fn lemma_leaf_shows(
    store: Seq<Seq<u8>>,
    at: int,
    entries: Seq<(Seq<u8>, Seq<u8>)>,
    first: nat,
    forward: nat,
    backward: nat,
    block_size: u32,
    key_size: nat,
)
    requires
        12 + 8 * entries.len() <= block_size,
        entries.len() <= u16::MAX,
        first + 2 * entries.len() <= store.len() <= u32::MAX,
        forward <= u32::MAX,
        backward <= u32::MAX,
        store[at] == leaf_node(entries, first, forward, backward, block_size, key_size),
        forall|e: int|
            0 <= e < entries.len() ==> #[trigger] entries[e] == (
                store[first + 2 * e + 1],
                store[first + 2 * e],
            ),
    ensures
        shows_leaf(store, at, entries, forward, backward),
{
    let leaf = store[at];
    let n = entries.len();
    lemma_leaf_prefix(entries, first, forward, backward, block_size, key_size);
    let head = leaf_head(n, forward, backward);
    assert(head.len() == 12);
    assert(leaf.take(12) =~= leaf.take((12 + 8 * n) as int).take(12));
    assert(leaf.take(12) =~= head);
    lemma_leaf_head(leaf, n, forward, backward);
    let found = leaf_entries(store, leaf);
    assert forall|e: int| 0 <= e < n implies found[e] == entries[e] by {
        lemma_leaf_row(entries, first, forward, backward, block_size, key_size, e);
        assert(row_leads_to(leaf, e, first + 2 * e, first + 2 * e + 1));
    }
    assert(found =~= entries);
}

/// The leaf of a tree without entries.
proof fn lemma_no_entries(store: Seq<Seq<u8>>, at: int, block_size: u32)
    requires
        block_size >= 12,
        store[at] == empty_leaf(block_size),
    ensures
        shows_leaf(store, at, Seq::empty(), 0, 0),
{
    let leaf = empty_leaf(block_size);
    assert(leaf_head(0, 0, 0).len() == 12);
    assert(leaf.take(12) =~= leaf_head(0, 0, 0));
    lemma_leaf_head(leaf, 0, 0, 0);
    assert(leaf_entries(store, leaf) =~= Seq::empty());
}

/// What the one leaf of a small tree shows.
proof fn lemma_flat_leaf(
    store: Seq<Seq<u8>>,
    base: nat,
    entries: Seq<(Seq<u8>, Seq<u8>)>,
    block_size: u32,
    key_size: nat,
)
    requires
        block_size >= 20,
        0 < entries.len() <= per_leaf(block_size),
        entries.len() <= u16::MAX,
        store.len() <= u32::MAX,
        stand_at(store, base, tree_blocks(base, entries, block_size, key_size)),
    ensures
        shows_leaf(store, (base + 2 * entries.len()) as int, entries, 0, 0),
{
    reveal(tree_blocks);
    let blocks = tree_blocks(base, entries, block_size, key_size);
    let n = entries.len();
    assert(blocks.len() == 2 * n + 2);
    assert(blocks[(2 * n) as int] == leaf_node(entries, base, 0, 0, block_size, key_size));
    assert forall|e: int| 0 <= e < n implies #[trigger] entries[e] == (
        store[base + 2 * e + 1],
        store[base + 2 * e],
    ) by {
        assert(blocks[2 * e] == entry_blocks(entries)[2 * e]);
        assert(blocks[2 * e + 1] == entry_blocks(entries)[2 * e + 1]);
    }
    lemma_leaf_shows(store, (base + 2 * n) as int, entries, base, 0, 0, block_size, key_size);
}

/// What leaf `i` of a tree with several leaves shows.
proof fn lemma_deep_leaf(
    store: Seq<Seq<u8>>,
    base: nat,
    entries: Seq<(Seq<u8>, Seq<u8>)>,
    block_size: u32,
    key_size: nat,
    i: nat,
)
    requires
        block_size >= 20,
        entries.len() > per_leaf(block_size),
        leaves_fit(entries.len(), block_size),
        store.len() <= u32::MAX,
        stand_at(store, base, tree_blocks(base, entries, block_size, key_size)),
        i < leaf_count(entries.len(), block_size),
    ensures
        shows_leaf(
            store,
            (base + i) as int,
            batch(entries, i, per_leaf(block_size)),
            forward_link(base, i, leaf_count(entries.len(), block_size)),
            backward_link(base, i),
        ),
{
    let blocks = tree_blocks(base, entries, block_size, key_size);
    let n = entries.len();
    let per = per_leaf(block_size);
    let leaves = leaf_count(n, block_size);
    let part = batch(entries, i, per);
    let first = (base + leaves + 2 * (i * per)) as nat;
    lemma_leaf_bounds(n, block_size);
    lemma_batch_bounds(n, block_size, i);
    lemma_deep_tree_parts(base, entries, block_size, key_size, i as int, 0);
    assert(blocks[i as int] == leaf_nodes(base, entries, block_size, key_size)[i as int]);
    assert(store[base + i as int] == blocks[i as int]);
    assert forall|e: int| 0 <= e < part.len() implies #[trigger] part[e] == (
        store[first + 2 * e + 1],
        store[first + 2 * e],
    ) by {
        let k = i * per + e;
        lemma_deep_tree_parts(base, entries, block_size, key_size, i as int, 2 * k);
        lemma_deep_tree_parts(base, entries, block_size, key_size, i as int, 2 * k + 1);
        assert(part[e] == entries[k]);
        assert(store[base + (leaves + 2 * k)] == blocks[leaves + 2 * k]);
        assert(store[base + (leaves + 2 * k + 1)] == blocks[leaves + 2 * k + 1]);
        assert(entry_blocks(entries)[2 * k] == entries[k].1);
        assert(entry_blocks(entries)[2 * k + 1] == entries[k].0);
    }
    lemma_leaf_shows(
        store,
        (base + i) as int,
        part,
        first,
        forward_link(base, i, leaves),
        backward_link(base, i),
        block_size,
        key_size,
    );
}

/// Where the header and the root of a tree with several leaves stand.
proof fn lemma_deep_root(
    base: nat,
    entries: Seq<(Seq<u8>, Seq<u8>)>,
    block_size: u32,
    key_size: nat,
)
    requires
        block_size >= 20,
        entries.len() > per_leaf(block_size),
    ensures
        ({
            let blocks = tree_blocks(base, entries, block_size, key_size);
            let leaves = leaf_count(entries.len(), block_size);
            let table = branch_table(
                base + leaves + 2 * entries.len(),
                base,
                (leaves - 1) as nat,
            );
            &&& blocks.len() == 2 * leaves + 2 * entries.len() + 1
            &&& blocks[blocks.len() - 2] == branch_head(base, leaves) + table
            &&& blocks[blocks.len() - 1] == tree_header(
                (base + blocks.len() - 2) as nat,
                block_size,
                entries.len(),
                0,
                key_size,
            )
        }),
{
    reveal(tree_blocks);
    lemma_leaf_bounds(entries.len(), block_size);
}

/// A block that shows one of the leaves of a tree is that leaf.
proof fn lemma_is_leaf(
    store: Seq<Seq<u8>>,
    first: int,
    leaves: nat,
    per: nat,
    i: int,
    part: Seq<(Seq<u8>, Seq<u8>)>,
)
    requires
        0 <= first,
        0 <= i < leaves,
        part.len() <= per,
        shows_leaf(
            store,
            first + i,
            part,
            forward_link(first as nat, i as nat, leaves),
            backward_link(first as nat, i as nat),
        ),
    ensures
        is_leaf_of(store, first, leaves, per, i),
{
    assert(leaf_entries(store, store[first + i]).len() == part.len());
}

/// The entries of a leaf are some of the entries, at most as many as it has room for.
proof fn lemma_batch_bounds(n: nat, block_size: u32, i: nat)
    requires
        block_size >= 20,
        n > per_leaf(block_size),
        i < leaf_count(n, block_size),
    ensures
        ({
            let per = per_leaf(block_size);
            &&& i * per < n
            &&& (i + 1) * per == i * per + per
            &&& i + 1 == leaf_count(n, block_size) ==> n <= (i + 1) * per
            &&& i + 1 < leaf_count(n, block_size) ==> (i + 1) * per < n
        }),
{
    let per = per_leaf(block_size);
    let leaves = leaf_count(n, block_size);
    lemma_leaf_bounds(n, block_size);
    assert((i + 1) * per == i * per + per) by (nonlinear_arith);
    vstd::arithmetic::div_mod::lemma_fundamental_div_mod(n + per - 1, per as int);
    vstd::arithmetic::div_mod::lemma_mod_bound(n + per - 1, per as int);
    assert(i * per <= (leaves - 1) * per && (leaves - 1) * per == leaves * per - per)
        by (nonlinear_arith)
        requires
            0 <= i <= leaves - 1,
            per >= 0,
    ;
    assert(per * leaves == leaves * per) by (nonlinear_arith);
    if i + 1 < leaves {
        assert((i + 1) * per <= (leaves - 1) * per) by (nonlinear_arith)
            requires
                i + 1 <= leaves - 1,
                per >= 0,
        ;
    }
}

/// Whether block `base + i` is leaf `i` of a tree with several leaves.
spec fn is_deep_leaf(
    store: Seq<Seq<u8>>,
    base: nat,
    entries: Seq<(Seq<u8>, Seq<u8>)>,
    block_size: u32,
    i: nat,
) -> bool {
    shows_leaf(
        store,
        (base + i) as int,
        batch(entries, i, per_leaf(block_size)),
        forward_link(base, i, leaf_count(entries.len(), block_size)),
        backward_link(base, i),
    )
}

/// The entries of the leaves from leaf `i` on are the entries that are left.
proof fn lemma_leaves_from(
    store: Seq<Seq<u8>>,
    base: nat,
    entries: Seq<(Seq<u8>, Seq<u8>)>,
    block_size: u32,
    i: nat,
    n: nat,
)
    requires
        block_size >= 20,
        entries.len() > per_leaf(block_size),
        i < leaf_count(entries.len(), block_size) <= i + n,
        forall|j: nat|
            j < leaf_count(entries.len(), block_size) ==> #[trigger] is_deep_leaf(
                store,
                base,
                entries,
                block_size,
                j,
            ),
    ensures
        entries_from(store, (base + i) as int, n) == entries.skip(
            (i * per_leaf(block_size)) as int,
        ),
    decreases n,
{
    let per = per_leaf(block_size);
    let leaves = leaf_count(entries.len(), block_size);
    assert(is_deep_leaf(store, base, entries, block_size, i));
    lemma_batch_bounds(entries.len(), block_size, i);
    let part = batch(entries, i, per);
    let rest = entries.skip((i * per) as int);
    if i + 1 < leaves {
        lemma_leaves_from(store, base, entries, block_size, i + 1, (n - 1) as nat);
        assert(rest =~= part + entries.skip(((i + 1) * per) as int));
    } else {
        assert(rest =~= part + Seq::<(Seq<u8>, Seq<u8>)>::empty());
    }
}

/// A tree with one leaf reads back.
proof fn lemma_flat_tree(
    store: Seq<Seq<u8>>,
    base: nat,
    entries: Seq<(Seq<u8>, Seq<u8>)>,
    block_size: u32,
    key_size: nat,
)
    requires
        block_size >= 12,
        entries.len() > 0 ==> block_size >= 20,
        entries.len() <= per_leaf(block_size),
        entries.len() <= u16::MAX,
        store.len() <= u32::MAX,
        stand_at(store, base, tree_blocks(base, entries, block_size, key_size)),
    ensures
        tree_reads_as(
            store,
            base + tree_blocks(base, entries, block_size, key_size).len() - 1,
            entries,
            block_size,
        ),
{
    let blocks = tree_blocks(base, entries, block_size, key_size);
    let n = entries.len();
    let root = base + first_leaf(n, block_size);
    assert(blocks.len() == first_leaf(n, block_size) + 2 && blocks[blocks.len() - 1] == tree_header(
        root,
        block_size,
        n,
        0,
        key_size,
    )) by {
        reveal(tree_blocks);
    }
    if n == 0 {
        assert(blocks[0] == empty_leaf(block_size)) by {
            reveal(tree_blocks);
        }
        lemma_no_entries(store, root as int, block_size);
        assert(entries =~= Seq::empty());
    } else {
        lemma_flat_leaf(store, base, entries, block_size, key_size);
    }
    assert(shows_leaf(store, root as int, entries, 0, 0));
    assert(store[base + (blocks.len() - 1)] == blocks[blocks.len() - 1]);
    lemma_tree_header(root, block_size, n, 0, key_size);
    lemma_is_leaf(store, root as int, 1, per_leaf(block_size), 0, entries);
    assert(entries + Seq::<(Seq<u8>, Seq<u8>)>::empty() =~= entries);
}

/// The header of a tree with several leaves leads to the first of them.
proof fn lemma_deep_start(
    store: Seq<Seq<u8>>,
    base: nat,
    entries: Seq<(Seq<u8>, Seq<u8>)>,
    block_size: u32,
    key_size: nat,
)
    requires
        block_size >= 20,
        entries.len() > per_leaf(block_size),
        store.len() <= u32::MAX,
        stand_at(store, base, tree_blocks(base, entries, block_size, key_size)),
    ensures
        leads_to_leaf(
            store,
            base + tree_blocks(base, entries, block_size, key_size).len() - 1,
            entries.len(),
            block_size,
            0,
            base as int,
        ),
{
    let blocks = tree_blocks(base, entries, block_size, key_size);
    let n = entries.len();
    let leaves = leaf_count(n, block_size);
    let root = (base + blocks.len() - 2) as nat;
    lemma_deep_root(base, entries, block_size, key_size);
    lemma_leaf_bounds(n, block_size);
    assert(store[base + (blocks.len() - 1)] == blocks[blocks.len() - 1]);
    assert(store[base + (blocks.len() - 2)] == blocks[blocks.len() - 2]);
    lemma_tree_header(root, block_size, n, 0, key_size);
    lemma_branch_head(base, leaves, branch_table(base + leaves + 2 * n, base, (leaves - 1) as nat));
}

/// A tree with several leaves reads back.
proof fn lemma_deep_tree(
    store: Seq<Seq<u8>>,
    base: nat,
    entries: Seq<(Seq<u8>, Seq<u8>)>,
    block_size: u32,
    key_size: nat,
)
    requires
        block_size >= 20,
        entries.len() > per_leaf(block_size),
        leaves_fit(entries.len(), block_size),
        store.len() <= u32::MAX,
        stand_at(store, base, tree_blocks(base, entries, block_size, key_size)),
    ensures
        tree_reads_as(
            store,
            base + tree_blocks(base, entries, block_size, key_size).len() - 1,
            entries,
            block_size,
        ),
{
    let blocks = tree_blocks(base, entries, block_size, key_size);
    let n = entries.len();
    let per = per_leaf(block_size);
    let leaves = leaf_count(n, block_size);
    lemma_leaf_bounds(n, block_size);
    lemma_deep_start(store, base, entries, block_size, key_size);
    assert(blocks.len() >= leaves) by {
        lemma_deep_root(base, entries, block_size, key_size);
    }
    assert forall|j: nat| j < leaves implies #[trigger] is_deep_leaf(
        store,
        base,
        entries,
        block_size,
        j,
    ) by {
        lemma_deep_leaf(store, base, entries, block_size, key_size, j);
    }
    assert forall|i: int| 0 <= i < leaves implies #[trigger] is_leaf_of(
        store,
        base as int,
        leaves,
        per,
        i,
    ) by {
        assert(is_deep_leaf(store, base, entries, block_size, i as nat));
        lemma_batch_bounds(n, block_size, i as nat);
        lemma_is_leaf(store, base as int, leaves, per, i, batch(entries, i as nat, per));
    }
    assert(0 * per == 0) by (nonlinear_arith);
    lemma_leaves_from(store, base, entries, block_size, 0, store.len());
    assert(entries.skip(0) =~= entries);
}

/// A tree reads back from any store that its blocks stand in.
pub proof fn trees_read_back(
    store: Seq<Seq<u8>>,
    base: nat,
    entries: Seq<(Seq<u8>, Seq<u8>)>,
    block_size: u32,
    key_size: nat,
)
    requires
        block_size >= 12,
        entries.len() > 0 ==> block_size >= 20,
        leaves_fit(entries.len(), block_size),
        store.len() <= u32::MAX,
        stand_at(store, base, tree_blocks(base, entries, block_size, key_size)),
    ensures
        tree_reads_as(
            store,
            base + tree_blocks(base, entries, block_size, key_size).len() - 1,
            entries,
            block_size,
        ),
{
    if entries.len() <= per_leaf(block_size) {
        lemma_flat_tree(store, base, entries, block_size, key_size);
    } else {
        lemma_deep_tree(store, base, entries, block_size, key_size);
    }
}

/// The entries that the rows of a raw-keyed leaf hold and lead to.
pub open spec fn raw_leaf_entries(store: Seq<Seq<u8>>, leaf: Seq<u8>) -> Seq<(u32, Seq<u8>)> {
    Seq::new(
        read_be16(leaf, 2),
        |row: int|
            (
                read_be32(leaf, 16 + 8 * row) as u32,
                store[read_be32(leaf, 12 + 8 * row) as int],
            ),
    )
}

/// The entries of at most `n` raw-keyed leaves, from block `at` on, each followed by the
/// one that it names as the next.
pub open spec fn raw_entries_from(store: Seq<Seq<u8>>, at: int, n: nat) -> Seq<(u32, Seq<u8>)>
    decreases n,
{
    if n == 0 {
        Seq::empty()
    } else {
        let leaf = store[at];
        let next = read_be32(leaf, 4) as int;
        raw_leaf_entries(store, leaf) + if next == 0 {
            Seq::empty()
        } else {
            raw_entries_from(store, next, (n - 1) as nat)
        }
    }
}

/// Whether a block is the header of a raw-keyed tree with these entries: read from the
/// first under its root to the last, each naming the next, its leaves give them in
/// order, and nothing else.
pub open spec fn raw_tree_reads_as(
    store: Seq<Seq<u8>>,
    id: int,
    entries: Seq<(u32, Seq<u8>)>,
    block_size: u32,
) -> bool {
    &&& is_tree_of(store, id, entries.len(), block_size, 1)
    &&& raw_entries_from(
        store,
        first_leaf_under(store, read_be32(store[id], 8) as int),
        store.len(),
    ) == entries
}

/// What a block shows that is a raw-keyed leaf.
spec fn shows_raw_leaf(
    store: Seq<Seq<u8>>,
    at: int,
    part: Seq<(u32, Seq<u8>)>,
    forward: nat,
    backward: nat,
) -> bool {
    &&& read_be16(store[at], 0) == 1
    &&& read_be32(store[at], 4) == forward
    &&& read_be32(store[at], 8) == backward
    &&& raw_leaf_entries(store, store[at]) == part
}

/// What a raw-keyed leaf with the given entries, whose values begin at `first`, shows.
proof fn lemma_raw_leaf_shows(
    store: Seq<Seq<u8>>,
    at: int,
    entries: Seq<(u32, Seq<u8>)>,
    first: nat,
    forward: nat,
    backward: nat,
    block_size: u32,
)
    requires
        0 < entries.len() <= u16::MAX,
        12 + 8 * entries.len() <= block_size,
        first + entries.len() <= store.len() <= u32::MAX,
        forward <= u32::MAX,
        backward <= u32::MAX,
        store[at] == raw_leaf(entries, first, forward, backward, block_size),
        forall|e: int| 0 <= e < entries.len() ==> (#[trigger] entries[e]).1 == store[first + e],
    ensures
        shows_raw_leaf(store, at, entries, forward, backward),
{
    let leaf = store[at];
    let n = entries.len();
    let head = leaf_head(n, forward, backward);
    lemma_raw_table(first, entries, 0);
    assert(head.len() == 12);
    assert((head + raw_table(first, entries)).len() == 12 + 8 * n);
    assert(leaf.len() >= 12);
    assert(leaf.take(12) =~= head);
    lemma_leaf_head(leaf, n, forward, backward);
    let found = raw_leaf_entries(store, leaf);
    assert forall|e: int| 0 <= e < n implies found[e] == entries[e] by {
        lemma_raw_row(entries, first, forward, backward, block_size, e);
        assert(row_leads_to(leaf, e, first + e, entries[e].0 as int));
    }
    assert(found =~= entries);
}

/// The leaf of a raw-keyed tree without entries.
proof fn lemma_no_raw_entries(store: Seq<Seq<u8>>, at: int, block_size: u32)
    requires
        block_size >= 12,
        store[at] == empty_leaf(block_size),
    ensures
        shows_raw_leaf(store, at, Seq::empty(), 0, 0),
{
    let leaf = empty_leaf(block_size);
    assert(leaf_head(0, 0, 0).len() == 12);
    assert(leaf.take(12) =~= leaf_head(0, 0, 0));
    lemma_leaf_head(leaf, 0, 0, 0);
    assert(raw_leaf_entries(store, leaf) =~= Seq::empty());
}

/// What the one leaf of a small raw-keyed tree shows.
proof fn lemma_flat_raw_leaf(
    store: Seq<Seq<u8>>,
    base: nat,
    entries: Seq<(u32, Seq<u8>)>,
    block_size: u32,
)
    requires
        block_size >= 20,
        0 < entries.len() <= per_leaf(block_size),
        entries.len() <= u16::MAX,
        store.len() <= u32::MAX,
        stand_at(store, base, raw_tree_blocks(base, entries, block_size)),
    ensures
        shows_raw_leaf(store, (base + entries.len()) as int, entries, 0, 0),
{
    reveal(raw_tree_blocks);
    let blocks = raw_tree_blocks(base, entries, block_size);
    let n = entries.len();
    assert(blocks.len() == n + 2);
    assert(blocks[n as int] == raw_leaf(entries, base, 0, 0, block_size));
    assert forall|e: int| 0 <= e < n implies (#[trigger] entries[e]).1 == store[base + e] by {
        assert(blocks[e] == value_blocks(entries)[e]);
    }
    lemma_raw_leaf_shows(store, (base + n) as int, entries, base, 0, 0, block_size);
}

/// Where leaves and values of a raw-keyed tree with several leaves stand.
proof fn lemma_deep_raw_parts(
    base: nat,
    entries: Seq<(u32, Seq<u8>)>,
    block_size: u32,
    i: int,
    k: int,
)
    requires
        block_size >= 20,
        entries.len() > per_leaf(block_size),
        0 <= i < leaf_count(entries.len(), block_size),
        0 <= k < entries.len(),
    ensures
        ({
            let blocks = raw_tree_blocks(base, entries, block_size);
            let leaves = leaf_count(entries.len(), block_size);
            let per = per_leaf(block_size);
            &&& blocks.len() == leaves + entries.len() + 2
            &&& blocks[leaves + k] == entries[k].1
            &&& blocks[i] == raw_leaf(
                batch(entries, i as nat, per),
                (base + leaves + i * per) as nat,
                forward_link(base, i as nat, leaves),
                backward_link(base, i as nat),
                block_size,
            )
        }),
{
    reveal(raw_tree_blocks);
    let leaves = leaf_count(entries.len(), block_size);
    let nodes = raw_leaves(base, entries, block_size);
    let values = value_blocks(entries);
    let blocks = raw_tree_blocks(base, entries, block_size);
    assert((nodes + values)[i] == nodes[i]);
    assert((nodes + values)[leaves + k] == values[k]);
    assert(blocks[i] == nodes[i]);
    assert(blocks[leaves + k] == values[k]);
}

/// Whether block `base + i` is leaf `i` of a raw-keyed tree with several leaves.
spec fn is_deep_raw_leaf(
    store: Seq<Seq<u8>>,
    base: nat,
    entries: Seq<(u32, Seq<u8>)>,
    block_size: u32,
    i: nat,
) -> bool {
    shows_raw_leaf(
        store,
        (base + i) as int,
        batch(entries, i, per_leaf(block_size)),
        forward_link(base, i, leaf_count(entries.len(), block_size)),
        backward_link(base, i),
    )
}

/// What leaf `i` of a raw-keyed tree with several leaves shows.
proof fn lemma_deep_raw_leaf(
    store: Seq<Seq<u8>>,
    base: nat,
    entries: Seq<(u32, Seq<u8>)>,
    block_size: u32,
    i: nat,
)
    requires
        block_size >= 20,
        entries.len() > per_leaf(block_size),
        leaves_fit(entries.len(), block_size),
        store.len() <= u32::MAX,
        stand_at(store, base, raw_tree_blocks(base, entries, block_size)),
        i < leaf_count(entries.len(), block_size),
    ensures
        is_deep_raw_leaf(store, base, entries, block_size, i),
{
    let per = per_leaf(block_size);
    let leaves = leaf_count(entries.len(), block_size);
    let part = batch(entries, i, per);
    let first = (base + leaves + i * per) as nat;
    lemma_leaf_bounds(entries.len(), block_size);
    lemma_batch_bounds(entries.len(), block_size, i);
    lemma_deep_raw_parts(base, entries, block_size, i as int, 0);
    let blocks = raw_tree_blocks(base, entries, block_size);
    assert(store[base + i as int] == blocks[i as int]);
    assert forall|e: int| 0 <= e < part.len() implies (#[trigger] part[e]).1 == store[first
        + e] by {
        let k = i * per + e;
        lemma_deep_raw_parts(base, entries, block_size, i as int, k);
        assert(part[e] == entries[k]);
        assert(store[base + (leaves + k)] == blocks[leaves + k]);
    }
    lemma_raw_leaf_shows(
        store,
        (base + i) as int,
        part,
        first,
        forward_link(base, i, leaves),
        backward_link(base, i),
        block_size,
    );
}

/// The same of a raw-keyed leaf.
proof fn lemma_is_raw_leaf(
    store: Seq<Seq<u8>>,
    first: int,
    leaves: nat,
    per: nat,
    i: int,
    part: Seq<(u32, Seq<u8>)>,
)
    requires
        0 <= first,
        0 <= i < leaves,
        part.len() <= per,
        shows_raw_leaf(
            store,
            first + i,
            part,
            forward_link(first as nat, i as nat, leaves),
            backward_link(first as nat, i as nat),
        ),
    ensures
        is_leaf_of(store, first, leaves, per, i),
{
    assert(raw_leaf_entries(store, store[first + i]).len() == part.len());
}

/// The entries of the leaves from leaf `i` on are the entries that are left.
proof fn lemma_raw_leaves_from(
    store: Seq<Seq<u8>>,
    base: nat,
    entries: Seq<(u32, Seq<u8>)>,
    block_size: u32,
    i: nat,
    n: nat,
)
    requires
        block_size >= 20,
        entries.len() > per_leaf(block_size),
        i < leaf_count(entries.len(), block_size) <= i + n,
        forall|j: nat|
            j < leaf_count(entries.len(), block_size) ==> #[trigger] is_deep_raw_leaf(
                store,
                base,
                entries,
                block_size,
                j,
            ),
    ensures
        raw_entries_from(store, (base + i) as int, n) == entries.skip(
            (i * per_leaf(block_size)) as int,
        ),
    decreases n,
{
    let per = per_leaf(block_size);
    let leaves = leaf_count(entries.len(), block_size);
    assert(is_deep_raw_leaf(store, base, entries, block_size, i));
    lemma_batch_bounds(entries.len(), block_size, i);
    let part = batch(entries, i, per);
    let rest = entries.skip((i * per) as int);
    if i + 1 < leaves {
        lemma_raw_leaves_from(store, base, entries, block_size, i + 1, (n - 1) as nat);
        assert(rest =~= part + entries.skip(((i + 1) * per) as int));
    } else {
        assert(rest =~= part + Seq::<(u32, Seq<u8>)>::empty());
    }
}

/// A raw-keyed tree with one leaf reads back.
proof fn lemma_flat_raw_tree(
    store: Seq<Seq<u8>>,
    base: nat,
    entries: Seq<(u32, Seq<u8>)>,
    block_size: u32,
)
    requires
        block_size >= 12,
        entries.len() > 0 ==> block_size >= 20,
        entries.len() <= per_leaf(block_size),
        entries.len() <= u16::MAX,
        store.len() <= u32::MAX,
        stand_at(store, base, raw_tree_blocks(base, entries, block_size)),
    ensures
        raw_tree_reads_as(
            store,
            base + raw_tree_blocks(base, entries, block_size).len() - 1,
            entries,
            block_size,
        ),
{
    let blocks = raw_tree_blocks(base, entries, block_size);
    let n = entries.len();
    let root = base + n;
    assert(blocks.len() == n + 2 && blocks[blocks.len() - 1] == tree_header(
        root,
        block_size,
        n,
        1,
        0,
    )) by {
        reveal(raw_tree_blocks);
    }
    if n == 0 {
        assert(blocks[0] == empty_leaf(block_size)) by {
            reveal(raw_tree_blocks);
        }
        lemma_no_raw_entries(store, root as int, block_size);
        assert(entries =~= Seq::empty());
    } else {
        lemma_flat_raw_leaf(store, base, entries, block_size);
    }
    assert(shows_raw_leaf(store, root as int, entries, 0, 0));
    assert(store[base + (blocks.len() - 1)] == blocks[blocks.len() - 1]);
    lemma_tree_header(root, block_size, n, 1, 0);
    lemma_is_raw_leaf(store, root as int, 1, per_leaf(block_size), 0, entries);
    assert(entries + Seq::<(u32, Seq<u8>)>::empty() =~= entries);
}

/// Where the header and the root of a raw-keyed tree with several leaves stand.
proof fn lemma_deep_raw_root(base: nat, entries: Seq<(u32, Seq<u8>)>, block_size: u32)
    requires
        block_size >= 20,
        entries.len() > per_leaf(block_size),
    ensures
        ({
            let blocks = raw_tree_blocks(base, entries, block_size);
            let leaves = leaf_count(entries.len(), block_size);
            let table = raw_branch_table(base, entries, block_size, (leaves - 1) as nat);
            &&& blocks.len() == leaves + entries.len() + 2
            &&& blocks[blocks.len() - 2] == branch_head(base, leaves) + table
            &&& blocks[blocks.len() - 1] == tree_header(
                (base + blocks.len() - 2) as nat,
                block_size,
                entries.len(),
                1,
                0,
            )
        }),
{
    reveal(raw_tree_blocks);
    lemma_leaf_bounds(entries.len(), block_size);
}

/// The header of a raw-keyed tree with several leaves leads to the first of them.
proof fn lemma_deep_raw_start(
    store: Seq<Seq<u8>>,
    base: nat,
    entries: Seq<(u32, Seq<u8>)>,
    block_size: u32,
)
    requires
        block_size >= 20,
        entries.len() > per_leaf(block_size),
        store.len() <= u32::MAX,
        stand_at(store, base, raw_tree_blocks(base, entries, block_size)),
    ensures
        leads_to_leaf(
            store,
            base + raw_tree_blocks(base, entries, block_size).len() - 1,
            entries.len(),
            block_size,
            1,
            base as int,
        ),
{
    let blocks = raw_tree_blocks(base, entries, block_size);
    let n = entries.len();
    let leaves = leaf_count(n, block_size);
    let root = (base + blocks.len() - 2) as nat;
    lemma_deep_raw_root(base, entries, block_size);
    lemma_leaf_bounds(n, block_size);
    assert(store[base + (blocks.len() - 1)] == blocks[blocks.len() - 1]);
    assert(store[base + (blocks.len() - 2)] == blocks[blocks.len() - 2]);
    lemma_tree_header(root, block_size, n, 1, 0);
    lemma_branch_head(base, leaves, raw_branch_table(base, entries, block_size, (leaves - 1) as nat));
}

/// A raw-keyed tree with several leaves reads back.
proof fn lemma_deep_raw_tree(
    store: Seq<Seq<u8>>,
    base: nat,
    entries: Seq<(u32, Seq<u8>)>,
    block_size: u32,
)
    requires
        block_size >= 20,
        entries.len() > per_leaf(block_size),
        leaves_fit(entries.len(), block_size),
        store.len() <= u32::MAX,
        stand_at(store, base, raw_tree_blocks(base, entries, block_size)),
    ensures
        raw_tree_reads_as(
            store,
            base + raw_tree_blocks(base, entries, block_size).len() - 1,
            entries,
            block_size,
        ),
{
    let blocks = raw_tree_blocks(base, entries, block_size);
    let n = entries.len();
    let per = per_leaf(block_size);
    let leaves = leaf_count(n, block_size);
    lemma_leaf_bounds(n, block_size);
    lemma_deep_raw_start(store, base, entries, block_size);
    assert(blocks.len() >= leaves) by {
        lemma_deep_raw_root(base, entries, block_size);
    }
    assert forall|j: nat| j < leaves implies #[trigger] is_deep_raw_leaf(
        store,
        base,
        entries,
        block_size,
        j,
    ) by {
        lemma_deep_raw_leaf(store, base, entries, block_size, j);
    }
    assert forall|i: int| 0 <= i < leaves implies #[trigger] is_leaf_of(
        store,
        base as int,
        leaves,
        per,
        i,
    ) by {
        assert(is_deep_raw_leaf(store, base, entries, block_size, i as nat));
        lemma_batch_bounds(n, block_size, i as nat);
        lemma_is_raw_leaf(store, base as int, leaves, per, i, batch(entries, i as nat, per));
    }
    assert(0 * per == 0) by (nonlinear_arith);
    lemma_raw_leaves_from(store, base, entries, block_size, 0, store.len());
    assert(entries.skip(0) =~= entries);
}

/// A raw-keyed tree reads back from any store that its blocks stand in.
pub proof fn raw_trees_read_back(
    store: Seq<Seq<u8>>,
    base: nat,
    entries: Seq<(u32, Seq<u8>)>,
    block_size: u32,
)
    requires
        block_size >= 12,
        entries.len() > 0 ==> block_size >= 20,
        leaves_fit(entries.len(), block_size),
        store.len() <= u32::MAX,
        stand_at(store, base, raw_tree_blocks(base, entries, block_size)),
    ensures
        raw_tree_reads_as(
            store,
            base + raw_tree_blocks(base, entries, block_size).len() - 1,
            entries,
            block_size,
        ),
{
    if entries.len() <= per_leaf(block_size) {
        lemma_flat_raw_tree(store, base, entries, block_size);
    } else {
        lemma_deep_raw_tree(store, base, entries, block_size);
    }
}

} // verus!
