//! The container format of `.car` files: a "bill of materials" store of
//! numbered blocks, some of which carry a name.  Every number in it is
//! big-endian.

use vstd::prelude::*;
use vstd::slice::slice_subrange;
use vstd::utf8::encode_utf8;

use indexmap::IndexMap;

use crate::bytes::{
    be16, be32, be32_reads_back, contents, copy_of, fit, fitted, lemma_empty_prefix, pad, padded,
    pair_contents, put_be16, put_be32, put_bytes, put_zeros, read_be32, zeros,
};
use crate::index::{
    keys_differ, name_entries, name_index_entry, name_index_insert, name_index_len, new_name_index,
    with_entry,
};

verus! {

broadcast use lemma_empty_prefix;

/// The ASCII letters `tree`.
pub const TREE_MAGIC: u32 = 0x7472_6565;

/// The ASCII letters `BOMS`, the first half of `BOMStore`.
pub const STORE_MAGIC_HIGH: u32 = 0x424f_4d53;

/// The ASCII letters `tore`, the second half of `BOMStore`.
pub const STORE_MAGIC_LOW: u32 = 0x746f_7265;

/// The block table never has fewer entries than this.
pub const MIN_TABLE_SIZE: usize = 256;

/// The length of the empty free list behind the block table.
pub const FREELIST_SIZE: usize = 20;

/// The length of the file header.
pub const HEADER_SIZE: u64 = 32;

/// The least multiple of sixteen that is not below `n`.
pub open spec fn align16(n: nat) -> nat {
    (n + 15) / 16 * 16
}

/// The block that describes a tree: where its root is, the size of its nodes,
/// how many entries it has, whether its keys are raw numbers, and how wide the
/// inline keys of its leaves are.
pub open spec fn tree_header(root: nat, block_size: u32, paths: nat, flag: u8, key_size: nat) -> Seq<
    u8,
> {
    be32(TREE_MAGIC) + be32(1) + be32(root as u32) + be32(block_size) + be32(paths as u32) + seq![
        flag,
    ] + be32(key_size as u32) + be32(0)
}

/// How many entries a node of `block_size` bytes takes: twelve bytes of header,
/// then eight for each entry.
pub open spec fn per_leaf(block_size: u32) -> nat {
    ((block_size - 12) / 8) as nat
}

/// How many leaves `n` entries fill.
pub open spec fn leaf_count(n: nat, block_size: u32) -> nat {
    ((n + per_leaf(block_size) - 1) / (per_leaf(block_size) as int)) as nat
}

/// The first twelve bytes of a leaf.
pub open spec fn leaf_head(n: nat, forward: nat, backward: nat) -> Seq<u8> {
    be16(1) + be16(n as u16) + be32(forward as u32) + be32(backward as u32)
}

/// The leaf of a tree without entries.
pub open spec fn empty_leaf(block_size: u32) -> Seq<u8> {
    fitted(leaf_head(0, 0, 0), block_size as nat)
}

/// The blocks that hold the entries of a tree: each value, then its key.
pub open spec fn entry_blocks(entries: Seq<(Seq<u8>, Seq<u8>)>) -> Seq<Seq<u8>> {
    Seq::new(
        2 * entries.len(),
        |j: int|
            if j % 2 == 0 {
                entries[j / 2].1
            } else {
                entries[j / 2].0
            },
    )
}

/// The entry table of a leaf with `n` entries whose blocks begin at number
/// `first`.
pub open spec fn entry_table(first: nat, n: nat) -> Seq<u8>
    decreases n,
{
    if n == 0 {
        Seq::empty()
    } else {
        entry_table(first, (n - 1) as nat) + be32((first + 2 * (n - 1)) as u32) + be32(
            (first + 2 * (n - 1) + 1) as u32,
        )
    }
}

/// The keys of a leaf one behind the other, each padded to `key_size` bytes.
pub open spec fn key_region(entries: Seq<(Seq<u8>, Seq<u8>)>, key_size: nat) -> Seq<u8>
    decreases entries.len(),
{
    if entries.len() == 0 {
        Seq::empty()
    } else {
        key_region(entries.drop_last(), key_size) + padded(entries.last().0, key_size)
    }
}

/// A node whose contents are `body`, padded to the size of a block.
pub open spec fn node_block(body: Seq<u8>, block_size: u32) -> Seq<u8> {
    if (body.len() as u32) < block_size {
        fitted(body, block_size as nat)
    } else {
        body
    }
}

/// A leaf: header, entry table and, behind a gap of four bytes, the inline keys;
/// padded to the block size and one more key width for each entry.
#[verifier::opaque]
pub open spec fn leaf_node(
    entries: Seq<(Seq<u8>, Seq<u8>)>,
    first: nat,
    forward: nat,
    backward: nat,
    block_size: u32,
    key_size: nat,
) -> Seq<u8> {
    let head = leaf_head(entries.len(), forward, backward) + entry_table(first, entries.len());
    let keys = key_region(entries, key_size);
    let body = if keys.len() == 0 {
        head
    } else {
        head + zeros(4) + keys
    };
    padded(node_block(body, block_size), block_size as nat + entries.len() * key_size)
}

/// The entries of the `i`-th leaf, of `per` entries each.
pub open spec fn batch<T>(entries: Seq<T>, i: nat, per: nat) -> Seq<T> {
    let hi = if (i + 1) * per <= entries.len() {
        (i + 1) * per
    } else {
        entries.len()
    };
    entries.subrange((i * per) as int, hi as int)
}

/// The number of the leaf behind the `i`-th of `leaves`, zero for the last.
pub open spec fn forward_link(base: nat, i: nat, leaves: nat) -> nat {
    if i + 1 < leaves {
        base + i + 1
    } else {
        0
    }
}

/// The number of the leaf before the `i`-th, zero for the first.
pub open spec fn backward_link(base: nat, i: nat) -> nat {
    if i > 0 {
        (base + i - 1) as nat
    } else {
        0
    }
}

/// The leaves of a tree that needs more than one.
pub open spec fn leaf_nodes(
    base: nat,
    entries: Seq<(Seq<u8>, Seq<u8>)>,
    block_size: u32,
    key_size: nat,
) -> Seq<Seq<u8>> {
    let leaves = leaf_count(entries.len(), block_size);
    let per = per_leaf(block_size);
    Seq::new(
        leaves,
        |i: int|
            leaf_node(
                batch(entries, i as nat, per),
                (base + leaves + 2 * (i * per)) as nat,
                forward_link(base, i as nat, leaves),
                backward_link(base, i as nat),
                block_size,
                key_size,
            ),
    )
}

/// The keys that part the leaves: the first of each leaf but the first leaf.
pub open spec fn split_keys(entries: Seq<(Seq<u8>, Seq<u8>)>, block_size: u32) -> Seq<Seq<u8>> {
    Seq::new(
        (leaf_count(entries.len(), block_size) - 1) as nat,
        |i: int| entries[(i + 1) * per_leaf(block_size)].0,
    )
}

/// The table of an inner node: for each of `n` splits the block of its key and
/// the leaf behind it.
pub open spec fn branch_table(first_key: nat, base: nat, n: nat) -> Seq<u8>
    decreases n,
{
    if n == 0 {
        Seq::empty()
    } else {
        branch_table(first_key, base, (n - 1) as nat) + be32((first_key + n - 1) as u32) + be32(
            (base + n) as u32,
        )
    }
}

/// The first sixteen bytes of an inner node over `leaves` leaves.
pub open spec fn branch_head(base: nat, leaves: nat) -> Seq<u8> {
    be16(0) + be16((leaves - 1) as u16) + be32(0) + be32(0) + be32(base as u32)
}

/// The blocks that a tree adds to a store of `base` blocks, the header last.
#[verifier::opaque]
pub open spec fn tree_blocks(
    base: nat,
    entries: Seq<(Seq<u8>, Seq<u8>)>,
    block_size: u32,
    key_size: nat,
) -> Seq<Seq<u8>> {
    let n = entries.len();
    if n == 0 {
        seq![empty_leaf(block_size), tree_header(base, block_size, 0, 0, key_size)]
    } else if n <= per_leaf(block_size) {
        entry_blocks(entries).push(
            leaf_node(entries, base, 0, 0, block_size, key_size),
        ).push(tree_header(base + 2 * n, block_size, n, 0, key_size))
    } else {
        let leaves = leaf_count(n, block_size);
        let first_key = base + leaves + 2 * n;
        let root = (first_key + leaves - 1) as nat;
        (leaf_nodes(base, entries, block_size, key_size) + entry_blocks(entries) + split_keys(
            entries,
            block_size,
        )).push(
            branch_head(base, leaves) + branch_table(first_key, base, (leaves - 1) as nat),
        ).push(tree_header(root, block_size, n, 0, key_size))
    }
}

/// The width of the widest key.
pub open spec fn widest_key(entries: Seq<(Seq<u8>, Seq<u8>)>) -> nat
    decreases entries.len(),
{
    if entries.len() == 0 {
        0
    } else {
        let rest = widest_key(entries.drop_last());
        if entries.last().0.len() > rest {
            entries.last().0.len()
        } else {
            rest
        }
    }
}

/// The contents of a list of raw-keyed entries.
pub open spec fn raw_contents(v: Seq<(u32, Vec<u8>)>) -> Seq<(u32, Seq<u8>)> {
    Seq::new(v.len(), |i: int| (v[i].0, v[i].1@))
}

/// The blocks that hold the values of a raw-keyed tree.
pub open spec fn value_blocks(entries: Seq<(u32, Seq<u8>)>) -> Seq<Seq<u8>> {
    Seq::new(entries.len(), |i: int| entries[i].1)
}

/// The entry table of a raw-keyed leaf whose value blocks begin at number
/// `first`: the keys themselves stand where other leaves have a block number.
pub open spec fn raw_table(first: nat, entries: Seq<(u32, Seq<u8>)>) -> Seq<u8>
    decreases entries.len(),
{
    if entries.len() == 0 {
        Seq::empty()
    } else {
        raw_table(first, entries.drop_last()) + be32((first + entries.len() - 1) as u32) + be32(
            entries.last().0,
        )
    }
}

/// A raw-keyed leaf.
pub open spec fn raw_leaf(
    entries: Seq<(u32, Seq<u8>)>,
    first: nat,
    forward: nat,
    backward: nat,
    block_size: u32,
) -> Seq<u8> {
    node_block(
        leaf_head(entries.len(), forward, backward) + raw_table(first, entries),
        block_size,
    )
}

/// The leaves of a raw-keyed tree that needs more than one.
pub open spec fn raw_leaves(base: nat, entries: Seq<(u32, Seq<u8>)>, block_size: u32) -> Seq<
    Seq<u8>,
> {
    let leaves = leaf_count(entries.len(), block_size);
    let per = per_leaf(block_size);
    Seq::new(
        leaves,
        |i: int|
            raw_leaf(
                batch(entries, i as nat, per),
                (base + leaves + i * per) as nat,
                forward_link(base, i as nat, leaves),
                backward_link(base, i as nat),
                block_size,
            ),
    )
}

/// The table of an inner node of a raw-keyed tree with `n` splits.
pub open spec fn raw_branch_table(
    base: nat,
    entries: Seq<(u32, Seq<u8>)>,
    block_size: u32,
    n: nat,
) -> Seq<u8>
    decreases n,
{
    if n == 0 {
        Seq::empty()
    } else {
        raw_branch_table(base, entries, block_size, (n - 1) as nat) + be32(
            entries[(n * per_leaf(block_size)) as int].0,
        ) + be32((base + n) as u32)
    }
}

/// The blocks that a raw-keyed tree adds to a store of `base` blocks, the
/// header last.
#[verifier::opaque]
pub open spec fn raw_tree_blocks(
    base: nat,
    entries: Seq<(u32, Seq<u8>)>,
    block_size: u32,
) -> Seq<Seq<u8>> {
    let n = entries.len();
    if n == 0 {
        seq![empty_leaf(block_size), tree_header(base, block_size, 0, 1, 0)]
    } else if n <= per_leaf(block_size) {
        value_blocks(entries).push(raw_leaf(entries, base, 0, 0, block_size)).push(
            tree_header(base + n, block_size, n, 1, 0),
        )
    } else {
        let leaves = leaf_count(n, block_size);
        (raw_leaves(base, entries, block_size) + value_blocks(entries)).push(
            branch_head(base, leaves) + raw_branch_table(
                base,
                entries,
                block_size,
                (leaves - 1) as nat,
            ),
        ).push(tree_header(base + leaves + n, block_size, n, 1, 0))
    }
}

/// The leaves but the last are full, and the last is not empty.
pub proof fn lemma_leaf_bounds(n: nat, block_size: u32)
    requires
        block_size >= 20,
    ensures
        per_leaf(block_size) >= 1,
        n > 0 ==> leaf_count(n, block_size) >= 1,
        n > 0 ==> (leaf_count(n, block_size) - 1) * per_leaf(block_size) < n,
        n <= leaf_count(n, block_size) * per_leaf(block_size),
        leaf_count(n, block_size) <= n,
        n == 0 ==> leaf_count(n, block_size) == 0,
        n > per_leaf(block_size) ==> leaf_count(n, block_size) >= 2,
{
    let per = per_leaf(block_size) as int;
    let leaves = leaf_count(n, block_size) as int;
    let m = n + per - 1;
    assert(leaves == m / per);
    vstd::arithmetic::div_mod::lemma_fundamental_div_mod(m, per);
    vstd::arithmetic::div_mod::lemma_mod_bound(m, per);
    assert(per * leaves <= m < per * leaves + per);
    assert(per * leaves == leaves * per) by (nonlinear_arith);
    assert((leaves - 1) * per == leaves * per - per) by (nonlinear_arith);
    if leaves > n {
        assert(leaves * per >= (n + 1) * per) by (nonlinear_arith)
            requires
                leaves >= n + 1,
                per >= 1,
        ;
        assert((n + 1) * per >= n + per) by (nonlinear_arith)
            requires
                per >= 1,
                n >= 0,
        ;
    }
    if n > per && leaves < 2 {
        assert(leaves * per <= per) by (nonlinear_arith)
            requires
                leaves <= 1,
                per >= 1,
        ;
    }
    if n == 0 && leaves >= 1 {
        assert(leaves * per >= per) by (nonlinear_arith)
            requires
                leaves >= 1,
                per >= 1,
        ;
    }
    if n > 0 && leaves < 1 {
        assert(leaves * per <= 0) by (nonlinear_arith)
            requires
                leaves <= 0,
                per >= 1,
        ;
    }
}

/// Counting leaves without the risk of exceeding a machine word.
proof fn lemma_leaf_count(n: nat, block_size: u32)
    requires
        block_size >= 20,
        n >= 1,
    ensures
        leaf_count(n, block_size) == (n - 1) / per_leaf(block_size) as int + 1,
{
    let per = per_leaf(block_size) as int;
    vstd::arithmetic::div_mod::lemma_div_plus_one(n - 1, per);
    assert(n + per - 1 == (n - 1) + per);
    assert(per + (n - 1) == n + per - 1);
}

/// A store under construction: its blocks, and the names of some of them.
pub struct BomWriter {
    blocks: Vec<Vec<u8>>,
    named_blocks: IndexMap<String, usize>,
    inline_key_size: Option<usize>,
}

impl BomWriter {
    /// The blocks, in the order of their numbers.
    pub closed spec fn blocks(&self) -> Seq<Seq<u8>> {
        contents(self.blocks@)
    }

    /// The names and the blocks they stand for, in the order they first came.
    pub closed spec fn names(&self) -> Seq<(Seq<char>, usize)> {
        name_entries(self.named_blocks)
    }

    /// The key width that callers have fixed for the trees to come.
    pub closed spec fn key_size(&self) -> Option<usize> {
        self.inline_key_size
    }

    /// Block 0 is there and empty, names differ, and each stands for a block.
    pub open spec fn wf(&self) -> bool {
        &&& self.blocks().len() >= 1
        &&& self.blocks()[0].len() == 0
        &&& keys_differ(self.names())
        &&& forall|i: int|
            0 <= i < self.names().len() ==> (#[trigger] self.names()[i]).1 < self.blocks().len()
    }

    /// The inline key width of a tree: the fixed one, else that of its widest key.
    pub open spec fn effective_key_size(&self, entries: Seq<(Seq<u8>, Seq<u8>)>) -> nat {
        match self.key_size() {
            Some(size) => size as nat,
            None => widest_key(entries),
        }
    }

    /// A store with nothing but the empty block 0.
    pub fn new() -> (bom: Self)
        ensures
            bom.wf(),
            bom.blocks() == seq![Seq::<u8>::empty()],
            bom.names().len() == 0,
            bom.key_size() is None,
    {
        let bom = BomWriter {
            blocks: vec![Vec::new()],
            named_blocks: new_name_index(),
            inline_key_size: None,
        };
        assert(bom.blocks() =~= seq![Seq::<u8>::empty()]);
        bom
    }

    /// Fixes the width of the inline keys of the trees to come; with `None` each
    /// tree takes that of its widest key.
    pub fn set_inline_key_size(&mut self, size: Option<usize>)
        requires
            old(self).wf(),
        ensures
            final(self).wf(),
            final(self).key_size() == size,
            final(self).blocks() == old(self).blocks(),
            final(self).names() == old(self).names(),
    {
        self.inline_key_size = size;
    }

    /// Appends a block and returns its number.
    pub fn add_block(&mut self, data: Vec<u8>) -> (idx: usize)
        requires
            old(self).wf(),
        ensures
            final(self).wf(),
            idx == old(self).blocks().len(),
            final(self).blocks() == old(self).blocks().push(data@),
            final(self).names() == old(self).names(),
            final(self).key_size() == old(self).key_size(),
    {
        let idx = self.blocks.len();
        self.blocks.push(data);
        assert(self.blocks() =~= old(self).blocks().push(data@));
        idx
    }

    /// Lets `name` stand for the block `idx`.
    fn name_block(&mut self, name: &str, idx: usize)
        requires
            old(self).wf(),
            idx < old(self).blocks().len(),
        ensures
            final(self).wf(),
            final(self).blocks() == old(self).blocks(),
            final(self).names() == with_entry(old(self).names(), name@, idx),
            final(self).key_size() == old(self).key_size(),
    {
        name_index_insert(&mut self.named_blocks, name, idx);
    }

    /// Appends a block, lets `name` stand for it, and returns its number.
    pub fn add_named_block(&mut self, name: &str, data: Vec<u8>) -> (idx: usize)
        requires
            old(self).wf(),
        ensures
            final(self).wf(),
            idx == old(self).blocks().len(),
            final(self).blocks() == old(self).blocks().push(data@),
            final(self).names() == with_entry(old(self).names(), name@, idx),
            final(self).key_size() == old(self).key_size(),
    {
        let idx = self.add_block(data);
        self.name_block(name, idx);
        idx
    }
}

/// The block that describes a tree.
fn build_tree_header(
    root_idx: usize,
    block_size: u32,
    n_paths: usize,
    flag: u8,
    key_size: usize,
) -> (hdr: Vec<u8>)
    ensures
        hdr@ == tree_header(root_idx as nat, block_size, n_paths as nat, flag, key_size as nat),
{
    let mut hdr: Vec<u8> = Vec::new();
    put_be32(&mut hdr, TREE_MAGIC);
    put_be32(&mut hdr, 1);
    put_be32(&mut hdr, root_idx as u32);
    put_be32(&mut hdr, block_size);
    put_be32(&mut hdr, n_paths as u32);
    hdr.push(flag);
    assert(hdr@ =~= be32(TREE_MAGIC) + be32(1) + be32(root_idx as u32) + be32(block_size) + be32(
        n_paths as u32,
    ) + seq![flag]);
    put_be32(&mut hdr, key_size as u32);
    put_be32(&mut hdr, 0);
    hdr
}

/// The width of the widest key.
pub fn find_widest_key(entries: &[(Vec<u8>, Vec<u8>)]) -> (width: usize)
    ensures
        width == widest_key(pair_contents(entries@)),
{
    let ghost all = pair_contents(entries@);
    let mut width: usize = 0;
    let mut i: usize = 0;
    assert(all.take(0) =~= Seq::empty());
    while i < entries.len()
        invariant
            i <= entries.len(),
            all == pair_contents(entries@),
            width == widest_key(all.take(i as int)),
        decreases entries.len() - i,
    {
        let len: usize = entries[i].0.len();
        if len > width {
            width = len;
        }
        i = i + 1;
        assert(all.take(i as int).drop_last() =~= all.take(i - 1));
    }
    assert(all.take(i as int) =~= all);
    width
}

/// The first twelve bytes of a leaf.
fn put_leaf_head(n: usize, forward: usize, backward: usize) -> (node: Vec<u8>)
    ensures
        node@ == leaf_head(n as nat, forward as nat, backward as nat),
{
    let mut node: Vec<u8> = Vec::new();
    put_be16(&mut node, 1);
    put_be16(&mut node, n as u16);
    put_be32(&mut node, forward as u32);
    put_be32(&mut node, backward as u32);
    node
}

/// Pads a node to the size of a block.
fn fill_block(node: &mut Vec<u8>, block_size: u32)
    ensures
        final(node)@ == node_block(old(node)@, block_size),
{
    if (node.len() as u32) < block_size {
        fit(node, block_size as usize);
    }
}

impl BomWriter {
    /// Appends the blocks of `entries` and builds the leaf over them.
    fn build_leaf_node(
        &mut self,
        entries: &[(Vec<u8>, Vec<u8>)],
        forward: usize,
        backward: usize,
        block_size: u32,
        key_size: usize,
    ) -> (node: Vec<u8>)
        requires
            old(self).wf(),
            block_size + entries@.len() * key_size <= usize::MAX,
        ensures
            final(self).wf(),
            final(self).names() == old(self).names(),
            final(self).key_size() == old(self).key_size(),
            final(self).blocks() == old(self).blocks() + entry_blocks(pair_contents(entries@)),
            node@ == leaf_node(
                pair_contents(entries@),
                old(self).blocks().len(),
                forward as nat,
                backward as nat,
                block_size,
                key_size as nat,
            ),
    {
        proof {
            reveal(leaf_node);
        }
        let ghost all = pair_contents(entries@);
        let ghost base = self.blocks().len();
        let mut node = put_leaf_head(entries.len(), forward, backward);
        let ghost head = node@;
        let mut keys: Vec<u8> = Vec::new();
        let mut i: usize = 0;
        assert(entry_blocks(all.take(0)) =~= Seq::empty());
        assert(self.blocks() =~= old(self).blocks() + entry_blocks(all.take(0)));
        assert(node@ =~= head + entry_table(base, 0));
        while i < entries.len()
            invariant
                i <= entries.len(),
                all == pair_contents(entries@),
                base == old(self).blocks().len(),
                self.wf(),
                self.names() == old(self).names(),
                self.key_size() == old(self).key_size(),
                self.blocks() == old(self).blocks() + entry_blocks(all.take(i as int)),
                node@ == head + entry_table(base, i as nat),
                keys@ == key_region(all.take(i as int), key_size as nat),
            decreases entries.len() - i,
        {
            let ghost blocks_before = self.blocks();
            let ghost table_before = node@;
            let value_idx = self.add_block(copy_of(entries[i].1.as_slice()));
            let key_idx = self.add_block(copy_of(entries[i].0.as_slice()));
            put_be32(&mut node, value_idx as u32);
            put_be32(&mut node, key_idx as u32);
            let ghost keys_before = keys@;
            put_bytes(&mut keys, entries[i].0.as_slice());
            if entries[i].0.len() < key_size {
                put_zeros(&mut keys, key_size - entries[i].0.len());
            }
            i = i + 1;
            proof {
                let now = all.take(i as int);
                assert(now.drop_last() =~= all.take(i - 1));
                assert(now.last() == all[i - 1]);
                assert(keys@ =~= keys_before + padded(all[i - 1].0, key_size as nat));
                assert(value_idx == base + 2 * (i - 1));
                assert(key_idx == base + 2 * (i - 1) + 1);
                assert(node@ =~= head + entry_table(base, i as nat));
                assert(blocks_before.push(all[i - 1].1).push(all[i - 1].0) =~= old(self).blocks()
                    + entry_blocks(now));
            }
        }
        assert(all.take(i as int) =~= all);
        if keys.len() > 0 {
            put_zeros(&mut node, 4);
            put_bytes(&mut node, keys.as_slice());
        }
        fill_block(&mut node, block_size);
        pad(&mut node, block_size as usize + entries.len() * key_size);
        node
    }

    /// Appends `leaves` blocks whose contents come later.
    fn reserve_blocks(&mut self, leaves: usize)
        requires
            old(self).wf(),
        ensures
            final(self).wf(),
            final(self).names() == old(self).names(),
            final(self).key_size() == old(self).key_size(),
            final(self).blocks() == old(self).blocks() + Seq::new(
                leaves as nat,
                |i: int| seq![0u8],
            ),
    {
        let mut i: usize = 0;
        assert(self.blocks() =~= old(self).blocks() + Seq::new(0, |i: int| seq![0u8]));
        while i < leaves
            invariant
                i <= leaves,
                self.wf(),
                self.names() == old(self).names(),
                self.key_size() == old(self).key_size(),
                self.blocks() == old(self).blocks() + Seq::new(i as nat, |i: int| seq![0u8]),
            decreases leaves - i,
        {
            let mut placeholder: Vec<u8> = Vec::new();
            placeholder.push(0);
            assert(placeholder@ =~= seq![0u8]);
            let _ = self.add_block(placeholder);
            i = i + 1;
            assert(self.blocks() =~= old(self).blocks() + Seq::new(i as nat, |i: int| seq![0u8]));
        }
    }

    /// Replaces a block.
    fn set_block(&mut self, idx: usize, data: Vec<u8>)
        requires
            old(self).wf(),
            0 < idx < old(self).blocks().len(),
        ensures
            final(self).wf(),
            final(self).names() == old(self).names(),
            final(self).key_size() == old(self).key_size(),
            final(self).blocks() == old(self).blocks().update(idx as int, data@),
    {
        self.blocks.set(idx, data);
        assert(self.blocks() =~= old(self).blocks().update(idx as int, data@));
    }

    /// Appends the leaves of a tree with more entries than one leaf takes, and
    /// the blocks of its entries.
    fn add_leaves(
        &mut self,
        entries: &[(Vec<u8>, Vec<u8>)],
        per: usize,
        leaves: usize,
        block_size: u32,
        key_size: usize,
    )
        requires
            old(self).wf(),
            block_size >= 20,
            per == per_leaf(block_size),
            leaves == leaf_count(entries@.len(), block_size),
            block_size + entries@.len() * key_size <= usize::MAX,
            old(self).blocks().len() + leaves <= usize::MAX,
        ensures
            final(self).wf(),
            final(self).names() == old(self).names(),
            final(self).key_size() == old(self).key_size(),
            final(self).blocks() == old(self).blocks() + leaf_nodes(
                old(self).blocks().len(),
                pair_contents(entries@),
                block_size,
                key_size as nat,
            ) + entry_blocks(pair_contents(entries@)),
    {
        let ghost all = pair_contents(entries@);
        let ghost nodes = leaf_nodes(
            self.blocks().len(),
            all,
            block_size,
            key_size as nat,
        );
        let ghost before = self.blocks();
        let base: usize = self.blocks.len();
        self.reserve_blocks(leaves);
        let mut i: usize = 0;
        let mut lo: usize = 0;
        proof {
            lemma_leaf_bounds(entries@.len(), block_size);
            assert(all.take(0) =~= Seq::empty());
        }
        while i < leaves
            invariant
                i <= leaves,
                lo <= entries@.len(),
                i < leaves ==> lo == i * per,
                i == leaves ==> lo == entries@.len(),
                per == per_leaf(block_size),
                per >= 1,
                leaves == leaf_count(entries@.len(), block_size),
                leaves >= 1 ==> (leaves - 1) * per < entries@.len(),
                entries@.len() <= leaves * per,
                all == pair_contents(entries@),
                base == old(self).blocks().len(),
                before == old(self).blocks(),
                before.len() >= 1,
                base + leaves <= usize::MAX,
                nodes == leaf_nodes(before.len(), all, block_size, key_size as nat),
                nodes.len() == leaves,
                block_size + entries@.len() * key_size <= usize::MAX,
                self.wf(),
                self.names() == old(self).names(),
                self.key_size() == old(self).key_size(),
                self.blocks().len() == base + leaves + 2 * lo,
                forall|j: int| 0 <= j < base ==> #[trigger] self.blocks()[j] == before[j],
                forall|j: int| 0 <= j < i ==> #[trigger] self.blocks()[base + j] == nodes[j],
                self.blocks().skip(base + leaves) == entry_blocks(all.take(lo as int)),
            decreases leaves - i,
        {
            let hi: usize = if entries.len() - lo <= per {
                entries.len()
            } else {
                lo + per
            };
            let forward: usize = if i + 1 < leaves {
                base + i + 1
            } else {
                0
            };
            let backward: usize = if i > 0 {
                base + i - 1
            } else {
                0
            };
            proof {
                assert((i + 1) * per == lo + per) by (nonlinear_arith)
                    requires
                        lo == i * per,
                ;
                assert(i + 1 == leaves ==> (i + 1) * per == leaves * per);
                if i + 1 < leaves {
                    assert((i + 1) * per <= (leaves - 1) * per) by (nonlinear_arith)
                        requires
                            i + 1 <= leaves - 1,
                            per >= 1,
                    ;
                } else {
                    assert(i == leaves - 1);
                }
                assert(i * per <= (leaves - 1) * per) by (nonlinear_arith)
                    requires
                        i <= leaves - 1,
                        per >= 1,
                ;
                assert((hi - lo) * key_size <= entries@.len() * key_size) by (nonlinear_arith)
                    requires
                        0 <= hi - lo <= entries@.len(),
                        key_size >= 0,
                ;
            }
            let ghost blocks_before = self.blocks();
            let part = slice_subrange(entries, lo, hi);
            let node = self.build_leaf_node(part, forward, backward, block_size, key_size);
            self.set_block(base + i, node);
            proof {
                assert(pair_contents(part@) =~= batch(all, i as nat, per as nat));
                assert(base + leaves + 2 * lo == (before.len() + leaves + 2 * (i * per)) as nat);
                assert(node@ == nodes[i as int]);
                let added = entry_blocks(pair_contents(part@));
                assert(self.blocks() =~= (blocks_before + added).update(base + i, node@));
                assert(self.blocks().skip(base + leaves) =~= blocks_before.skip(base + leaves)
                    + added);
                assert(entry_blocks(all.take(lo as int)) + added =~= entry_blocks(
                    all.take(hi as int),
                ));
            }
            i = i + 1;
            lo = hi;
        }
        assert(all.take(lo as int) =~= all);
        assert(self.blocks() =~= before + nodes + entry_blocks(all)) by {
            assert forall|j: int| base <= j < base + leaves implies self.blocks()[j] == nodes[
            j - base] by {
                assert(self.blocks()[base + (j - base)] == nodes[j - base]);
            }
            assert forall|j: int|
                base + leaves <= j < self.blocks().len() implies self.blocks()[j] == entry_blocks(
                all,
            )[j - base - leaves] by {
                assert(self.blocks().skip(base + leaves)[j - base - leaves] == self.blocks()[j]);
            }
        }
    }

    /// Stores a tree that needs more than one leaf.
    fn add_deep_tree(
        &mut self,
        name: &str,
        entries: &[(Vec<u8>, Vec<u8>)],
        block_size: u32,
        key_size: usize,
    ) -> (idx: usize)
        requires
            old(self).wf(),
            block_size >= 20,
            entries@.len() > per_leaf(block_size),
            block_size + entries@.len() * key_size <= usize::MAX,
            old(self).blocks().len() + 4 * entries@.len() + 4 <= usize::MAX,
        ensures
            final(self).wf(),
            final(self).key_size() == old(self).key_size(),
            final(self).blocks() == old(self).blocks() + tree_blocks(
                old(self).blocks().len(),
                pair_contents(entries@),
                block_size,
                key_size as nat,
            ),
            idx == final(self).blocks().len() - 1,
            final(self).names() == with_entry(old(self).names(), name@, idx),
    {
        proof {
            reveal(tree_blocks);
        }
        let ghost all = pair_contents(entries@);
        let ghost before = self.blocks();
        let base: usize = self.blocks.len();
        let per: usize = (block_size as usize - 12) / 8;
        let leaves: usize = (entries.len() - 1) / per + 1;
        proof {
            lemma_leaf_bounds(entries@.len(), block_size);
            lemma_leaf_count(entries@.len(), block_size);
        }
        self.add_leaves(entries, per, leaves, block_size, key_size);
        let ghost middle = self.blocks();
        let ghost first_key = (base + leaves + 2 * all.len()) as nat;
        let mut inner: Vec<u8> = Vec::new();
        put_be16(&mut inner, 0);
        put_be16(&mut inner, (leaves - 1) as u16);
        put_be32(&mut inner, 0);
        put_be32(&mut inner, 0);
        put_be32(&mut inner, base as u32);
        let ghost head = inner@;
        let ghost splits = split_keys(all, block_size);
        let mut i: usize = 1;
        let mut at: usize = per;
        assert(head =~= head + branch_table(first_key, base as nat, 0));
        assert(self.blocks() =~= middle + splits.take(0));
        while i < leaves
            invariant
                1 <= i <= leaves,
                at == i * per,
                per == per_leaf(block_size),
                per >= 1,
                leaves == leaf_count(entries@.len(), block_size),
                leaves <= entries@.len() + 1,
                (leaves - 1) * per < entries@.len(),
                all == pair_contents(entries@),
                base == before.len(),
                base + 4 * entries@.len() + 4 <= usize::MAX,
                block_size <= usize::MAX,
                per < block_size,
                entries@.len() + per <= usize::MAX,
                first_key == base + leaves + 2 * all.len(),
                middle.len() == first_key,
                splits == split_keys(all, block_size),
                self.wf(),
                self.names() == old(self).names(),
                self.key_size() == old(self).key_size(),
                self.blocks() == middle + splits.take(i - 1),
                inner@ == head + branch_table(first_key, base as nat, (i - 1) as nat),
            decreases leaves - i,
        {
            proof {
                assert(i * per <= (leaves - 1) * per) by (nonlinear_arith)
                    requires
                        i <= leaves - 1,
                        per >= 1,
                ;
                assert((i + 1) * per == at + per) by (nonlinear_arith)
                    requires
                        at == i * per,
                ;
            }
            let ghost inner_before = inner@;
            let ghost blocks_before = self.blocks();
            let key_idx = self.add_block(copy_of(entries[at].0.as_slice()));
            put_be32(&mut inner, key_idx as u32);
            put_be32(&mut inner, (base + i) as u32);
            proof {
                assert(splits[i - 1] == all[i * per].0);
                assert(self.blocks() =~= middle + splits.take(i as int));
                assert(inner@ =~= head + branch_table(first_key, base as nat, i as nat));
            }
            i = i + 1;
            at = at + per;
        }
        assert(splits.take(leaves - 1) =~= splits);
        let inner_idx = self.add_block(inner);
        let header = build_tree_header(inner_idx, block_size, entries.len(), 0, key_size);
        let idx = self.add_block(header);
        self.name_block(name, idx);
        assert(self.blocks() =~= before + tree_blocks(
            base as nat,
            all,
            block_size,
            key_size as nat,
        ));
        idx
    }

    /// Stores a tree under `name` and returns the number of its header block.
    ///
    /// Each entry is a key and a value.  A leaf keeps, besides the numbers of
    /// the blocks of its entries, a copy of every key.
    pub fn add_tree(
        &mut self,
        name: &str,
        entries: &[(Vec<u8>, Vec<u8>)],
        block_size: u32,
    ) -> (idx: usize)
        requires
            old(self).wf(),
            block_size >= 12,
            entries@.len() > 0 ==> block_size >= 20,
            block_size + entries@.len() * old(self).effective_key_size(pair_contents(entries@))
                <= usize::MAX,
            old(self).blocks().len() + 4 * entries@.len() + 4 <= usize::MAX,
        ensures
            final(self).wf(),
            final(self).key_size() == old(self).key_size(),
            final(self).blocks() == old(self).blocks() + tree_blocks(
                old(self).blocks().len(),
                pair_contents(entries@),
                block_size,
                old(self).effective_key_size(pair_contents(entries@)),
            ),
            idx == final(self).blocks().len() - 1,
            final(self).names() == with_entry(old(self).names(), name@, idx),
    {
        proof {
            reveal(tree_blocks);
        }
        let ghost all = pair_contents(entries@);
        let ghost base = self.blocks().len();
        let ghost before = self.blocks();
        let key_size: usize = match self.inline_key_size {
            Some(size) => size,
            None => find_widest_key(entries),
        };
        if entries.len() == 0 {
            let mut node = put_leaf_head(0, 0, 0);
            fit(&mut node, block_size as usize);
            let node_idx = self.add_block(node);
            let header = build_tree_header(node_idx, block_size, 0, 0, key_size);
            let idx = self.add_block(header);
            self.name_block(name, idx);
            assert(self.blocks() =~= before + tree_blocks(base, all, block_size, key_size as nat));
            return idx;
        }
        let per: usize = (block_size as usize - 12) / 8;
        if entries.len() <= per {
            let node = self.build_leaf_node(entries, 0, 0, block_size, key_size);
            let node_idx = self.add_block(node);
            let header = build_tree_header(node_idx, block_size, entries.len(), 0, key_size);
            let idx = self.add_block(header);
            self.name_block(name, idx);
            assert(self.blocks() =~= before + tree_blocks(base, all, block_size, key_size as nat));
            return idx;
        }
        self.add_deep_tree(name, entries, block_size, key_size)
    }
}

impl BomWriter {
    /// Appends the value blocks of `entries` and builds the raw-keyed leaf over
    /// them.
    fn build_raw_leaf(
        &mut self,
        entries: &[(u32, Vec<u8>)],
        forward: usize,
        backward: usize,
        block_size: u32,
    ) -> (node: Vec<u8>)
        requires
            old(self).wf(),
        ensures
            final(self).wf(),
            final(self).names() == old(self).names(),
            final(self).key_size() == old(self).key_size(),
            final(self).blocks() == old(self).blocks() + value_blocks(raw_contents(entries@)),
            node@ == raw_leaf(
                raw_contents(entries@),
                old(self).blocks().len(),
                forward as nat,
                backward as nat,
                block_size,
            ),
    {
        let ghost all = raw_contents(entries@);
        let ghost base = self.blocks().len();
        let mut node = put_leaf_head(entries.len(), forward, backward);
        let ghost head = node@;
        let mut i: usize = 0;
        assert(self.blocks() =~= old(self).blocks() + value_blocks(all.take(0)));
        assert(node@ =~= head + raw_table(base, all.take(0)));
        while i < entries.len()
            invariant
                i <= entries.len(),
                all == raw_contents(entries@),
                base == old(self).blocks().len(),
                self.wf(),
                self.names() == old(self).names(),
                self.key_size() == old(self).key_size(),
                self.blocks() == old(self).blocks() + value_blocks(all.take(i as int)),
                node@ == head + raw_table(base, all.take(i as int)),
            decreases entries.len() - i,
        {
            let value_idx = self.add_block(copy_of(entries[i].1.as_slice()));
            put_be32(&mut node, value_idx as u32);
            put_be32(&mut node, entries[i].0);
            i = i + 1;
            proof {
                let now = all.take(i as int);
                assert(now.drop_last() =~= all.take(i - 1));
                assert(node@ =~= head + raw_table(base, now));
                assert(self.blocks() =~= old(self).blocks() + value_blocks(now));
            }
        }
        assert(all.take(i as int) =~= all);
        fill_block(&mut node, block_size);
        node
    }

    /// Appends the leaves of a raw-keyed tree with more entries than one leaf
    /// takes, and the blocks of its values.
    fn add_raw_leaves(
        &mut self,
        entries: &[(u32, Vec<u8>)],
        per: usize,
        leaves: usize,
        block_size: u32,
    )
        requires
            old(self).wf(),
            block_size >= 20,
            per == per_leaf(block_size),
            leaves == leaf_count(entries@.len(), block_size),
            old(self).blocks().len() + leaves <= usize::MAX,
        ensures
            final(self).wf(),
            final(self).names() == old(self).names(),
            final(self).key_size() == old(self).key_size(),
            final(self).blocks() == old(self).blocks() + raw_leaves(
                old(self).blocks().len(),
                raw_contents(entries@),
                block_size,
            ) + value_blocks(raw_contents(entries@)),
    {
        let ghost all = raw_contents(entries@);
        let ghost nodes = raw_leaves(self.blocks().len(), all, block_size);
        let ghost before = self.blocks();
        let base: usize = self.blocks.len();
        self.reserve_blocks(leaves);
        let mut i: usize = 0;
        let mut lo: usize = 0;
        proof {
            lemma_leaf_bounds(entries@.len(), block_size);
        }
        while i < leaves
            invariant
                i <= leaves,
                lo <= entries@.len(),
                i < leaves ==> lo == i * per,
                i == leaves ==> lo == entries@.len(),
                per == per_leaf(block_size),
                per >= 1,
                leaves == leaf_count(entries@.len(), block_size),
                leaves >= 1 ==> (leaves - 1) * per < entries@.len(),
                entries@.len() <= leaves * per,
                all == raw_contents(entries@),
                base == old(self).blocks().len(),
                before == old(self).blocks(),
                before.len() >= 1,
                base + leaves <= usize::MAX,
                nodes == raw_leaves(before.len(), all, block_size),
                nodes.len() == leaves,
                self.wf(),
                self.names() == old(self).names(),
                self.key_size() == old(self).key_size(),
                self.blocks().len() == base + leaves + lo,
                forall|j: int| 0 <= j < base ==> #[trigger] self.blocks()[j] == before[j],
                forall|j: int| 0 <= j < i ==> #[trigger] self.blocks()[base + j] == nodes[j],
                self.blocks().skip(base + leaves) == value_blocks(all.take(lo as int)),
            decreases leaves - i,
        {
            let hi: usize = if entries.len() - lo <= per {
                entries.len()
            } else {
                lo + per
            };
            let forward: usize = if i + 1 < leaves {
                base + i + 1
            } else {
                0
            };
            let backward: usize = if i > 0 {
                base + i - 1
            } else {
                0
            };
            proof {
                assert((i + 1) * per == lo + per) by (nonlinear_arith)
                    requires
                        lo == i * per,
                ;
                if i + 1 < leaves {
                    assert((i + 1) * per <= (leaves - 1) * per) by (nonlinear_arith)
                        requires
                            i + 1 <= leaves - 1,
                            per >= 1,
                    ;
                } else {
                    assert(i == leaves - 1);
                }
                assert(i * per <= (leaves - 1) * per) by (nonlinear_arith)
                    requires
                        i <= leaves - 1,
                        per >= 1,
                ;
            }
            let ghost blocks_before = self.blocks();
            let part = slice_subrange(entries, lo, hi);
            let node = self.build_raw_leaf(part, forward, backward, block_size);
            self.set_block(base + i, node);
            proof {
                assert(raw_contents(part@) =~= batch(all, i as nat, per as nat));
                assert(node@ == nodes[i as int]);
                let added = value_blocks(raw_contents(part@));
                assert(self.blocks() =~= (blocks_before + added).update(base + i, node@));
                assert(self.blocks().skip(base + leaves) =~= blocks_before.skip(base + leaves)
                    + added);
                assert(value_blocks(all.take(lo as int)) + added =~= value_blocks(
                    all.take(hi as int),
                ));
            }
            i = i + 1;
            lo = hi;
        }
        assert(all.take(lo as int) =~= all);
        assert(self.blocks() =~= before + nodes + value_blocks(all)) by {
            assert forall|j: int| base <= j < base + leaves implies self.blocks()[j] == nodes[
            j - base] by {
                assert(self.blocks()[base + (j - base)] == nodes[j - base]);
            }
            assert forall|j: int|
                base + leaves <= j < self.blocks().len() implies self.blocks()[j] == value_blocks(
                all,
            )[j - base - leaves] by {
                assert(self.blocks().skip(base + leaves)[j - base - leaves] == self.blocks()[j]);
            }
        }
    }

    /// Stores a raw-keyed tree that needs more than one leaf.
    fn add_deep_raw_tree(
        &mut self,
        name: &str,
        entries: &[(u32, Vec<u8>)],
        block_size: u32,
    ) -> (idx: usize)
        requires
            old(self).wf(),
            block_size >= 20,
            entries@.len() > per_leaf(block_size),
            old(self).blocks().len() + 2 * entries@.len() + 4 <= usize::MAX,
        ensures
            final(self).wf(),
            final(self).key_size() == old(self).key_size(),
            final(self).blocks() == old(self).blocks() + raw_tree_blocks(
                old(self).blocks().len(),
                raw_contents(entries@),
                block_size,
            ),
            idx == final(self).blocks().len() - 1,
            final(self).names() == with_entry(old(self).names(), name@, idx),
    {
        proof {
            reveal(raw_tree_blocks);
        }
        let ghost all = raw_contents(entries@);
        let ghost before = self.blocks();
        let base: usize = self.blocks.len();
        let per: usize = (block_size as usize - 12) / 8;
        let leaves: usize = (entries.len() - 1) / per + 1;
        proof {
            lemma_leaf_bounds(entries@.len(), block_size);
            lemma_leaf_count(entries@.len(), block_size);
        }
        self.add_raw_leaves(entries, per, leaves, block_size);
        let mut inner: Vec<u8> = Vec::new();
        put_be16(&mut inner, 0);
        put_be16(&mut inner, (leaves - 1) as u16);
        put_be32(&mut inner, 0);
        put_be32(&mut inner, 0);
        put_be32(&mut inner, base as u32);
        let ghost head = inner@;
        let mut i: usize = 1;
        let mut at: usize = per;
        assert(head =~= head + raw_branch_table(base as nat, all, block_size, 0));
        while i < leaves
            invariant
                1 <= i <= leaves,
                at == i * per,
                per == per_leaf(block_size),
                per >= 1,
                leaves <= entries@.len() + 1,
                (leaves - 1) * per < entries@.len(),
                all == raw_contents(entries@),
                base + 2 * entries@.len() + 4 <= usize::MAX,
                entries@.len() + per <= usize::MAX,
                inner@ == head + raw_branch_table(base as nat, all, block_size, (i - 1) as nat),
            decreases leaves - i,
        {
            proof {
                assert(i * per <= (leaves - 1) * per) by (nonlinear_arith)
                    requires
                        i <= leaves - 1,
                        per >= 1,
                ;
                assert((i + 1) * per == at + per) by (nonlinear_arith)
                    requires
                        at == i * per,
                ;
            }
            put_be32(&mut inner, entries[at].0);
            put_be32(&mut inner, (base + i) as u32);
            assert(inner@ =~= head + raw_branch_table(base as nat, all, block_size, i as nat));
            i = i + 1;
            at = at + per;
        }
        let inner_idx = self.add_block(inner);
        let header = build_tree_header(inner_idx, block_size, entries.len(), 1, 0);
        let idx = self.add_block(header);
        self.name_block(name, idx);
        assert(self.blocks() =~= before + raw_tree_blocks(base as nat, all, block_size));
        idx
    }

    /// Stores a tree whose keys are numbers under `name` and returns the number
    /// of its header block.
    pub fn add_raw_key_tree(
        &mut self,
        name: &str,
        entries: &[(u32, Vec<u8>)],
        block_size: u32,
    ) -> (idx: usize)
        requires
            old(self).wf(),
            entries@.len() > 0 ==> block_size >= 20,
            old(self).blocks().len() + 2 * entries@.len() + 4 <= usize::MAX,
        ensures
            final(self).wf(),
            final(self).key_size() == old(self).key_size(),
            final(self).blocks() == old(self).blocks() + raw_tree_blocks(
                old(self).blocks().len(),
                raw_contents(entries@),
                block_size,
            ),
            idx == final(self).blocks().len() - 1,
            final(self).names() == with_entry(old(self).names(), name@, idx),
    {
        let ghost all = raw_contents(entries@);
        let ghost base = self.blocks().len();
        let ghost before = self.blocks();
        if entries.len() == 0 {
            let mut node = put_leaf_head(0, 0, 0);
            fit(&mut node, block_size as usize);
            let node_idx = self.add_block(node);
            let header = build_tree_header(node_idx, block_size, 0, 1, 0);
            let idx = self.add_block(header);
            self.name_block(name, idx);
            assert(raw_tree_blocks(base, all, block_size) == seq![
                empty_leaf(block_size),
                tree_header(base, block_size, 0, 1, 0),
            ]) by {
                reveal(raw_tree_blocks);
            }
            assert(self.blocks() =~= before + raw_tree_blocks(base, all, block_size));
            return idx;
        }
        let per: usize = (block_size as usize - 12) / 8;
        if entries.len() <= per {
            let node = self.build_raw_leaf(entries, 0, 0, block_size);
            let node_idx = self.add_block(node);
            let header = build_tree_header(node_idx, block_size, entries.len(), 1, 0);
            let idx = self.add_block(header);
            self.name_block(name, idx);
            assert(raw_tree_blocks(base, all, block_size) == value_blocks(all).push(
                raw_leaf(all, base, 0, 0, block_size),
            ).push(tree_header((base + all.len()) as nat, block_size, all.len(), 1, 0))) by {
                reveal(raw_tree_blocks);
            }
            assert(self.blocks() =~= before + raw_tree_blocks(base, all, block_size));
            return idx;
        }
        self.add_deep_raw_tree(name, entries, block_size)
    }
}

/// Where the data of blocks `0..=i` ends in the file.
pub open spec fn block_end(blocks: Seq<Seq<u8>>, i: nat) -> nat
    decreases i,
{
    if i == 0 {
        HEADER_SIZE as nat
    } else {
        align16(block_end(blocks, (i - 1) as nat)) + blocks[i as int].len()
    }
}

/// Where block `i` begins in the file, for every block but block 0.
pub open spec fn block_offset(blocks: Seq<Seq<u8>>, i: nat) -> nat {
    align16(block_end(blocks, (i - 1) as nat))
}

/// The table entry of block `i`: its offset and length, zero for block 0 and
/// for the unused entries.
pub open spec fn table_entry(blocks: Seq<Seq<u8>>, i: nat) -> Seq<u8> {
    if 0 < i < blocks.len() {
        be32(block_offset(blocks, i) as u32) + be32(blocks[i as int].len() as u32)
    } else {
        be32(0) + be32(0)
    }
}

/// The first `n` entries of the block table.
pub open spec fn block_table(blocks: Seq<Seq<u8>>, n: nat) -> Seq<u8>
    decreases n,
{
    if n == 0 {
        Seq::empty()
    } else {
        block_table(blocks, (n - 1) as nat) + table_entry(blocks, (n - 1) as nat)
    }
}

/// How many entries the block table has.
pub open spec fn table_size(blocks: Seq<Seq<u8>>) -> nat {
    if blocks.len() < MIN_TABLE_SIZE {
        MIN_TABLE_SIZE as nat
    } else {
        blocks.len()
    }
}

/// The index section: the block table and an empty free list.
#[verifier::opaque]
pub open spec fn index_section(blocks: Seq<Seq<u8>>) -> Seq<u8> {
    be32(table_size(blocks) as u32) + block_table(blocks, table_size(blocks)) + zeros(
        FREELIST_SIZE as nat,
    )
}

/// One name in the variables section: the block it stands for, the length of
/// its UTF-8 encoding, and the encoding itself.
pub open spec fn name_record(name: (Seq<char>, usize)) -> Seq<u8> {
    be32(name.1 as u32) + seq![encode_utf8(name.0).len() as u8] + encode_utf8(name.0)
}

/// The records of `names`, one behind the other.
pub open spec fn name_records(names: Seq<(Seq<char>, usize)>) -> Seq<u8>
    decreases names.len(),
{
    if names.len() == 0 {
        Seq::empty()
    } else {
        name_records(names.drop_last()) + name_record(names.last())
    }
}

/// The variables section: every name and the block it stands for.
pub open spec fn vars_section(names: Seq<(Seq<char>, usize)>) -> Seq<u8> {
    be32(names.len() as u32) + name_records(names)
}

/// Where the variables section begins.
pub open spec fn vars_offset(blocks: Seq<Seq<u8>>) -> nat {
    align16(block_end(blocks, (blocks.len() - 1) as nat))
}

/// Where the index section begins.
pub open spec fn index_offset(blocks: Seq<Seq<u8>>, names: Seq<(Seq<char>, usize)>) -> nat {
    align16(vars_offset(blocks) + (vars_section(names).len() as u32) as nat)
}

/// The file header.
#[verifier::opaque]
pub open spec fn store_header(blocks: Seq<Seq<u8>>, names: Seq<(Seq<char>, usize)>) -> Seq<u8> {
    be32(STORE_MAGIC_HIGH) + be32(STORE_MAGIC_LOW) + be32(1) + be32(blocks.len() as u32) + be32(
        index_offset(blocks, names) as u32,
    ) + be32(index_section(blocks).len() as u32) + be32(vars_offset(blocks) as u32) + be32(
        vars_section(names).len() as u32,
    )
}

/// `head` with the data of the blocks before `n` behind it, each at its offset.
pub open spec fn data_section(head: Seq<u8>, blocks: Seq<Seq<u8>>, n: nat) -> Seq<u8>
    decreases n,
{
    if n <= 1 {
        head
    } else {
        padded(
            data_section(head, blocks, (n - 1) as nat),
            (block_offset(blocks, (n - 1) as nat) as u32) as nat,
        ) + blocks[n - 1]
    }
}

/// The file: header, blocks, variables, index.
#[verifier::opaque]
pub open spec fn store_image(blocks: Seq<Seq<u8>>, names: Seq<(Seq<char>, usize)>) -> Seq<u8> {
    padded(
        padded(
            data_section(store_header(blocks, names), blocks, blocks.len()),
            vars_offset(blocks),
        ) + vars_section(names),
        index_offset(blocks, names),
    ) + index_section(blocks)
}

/// Offsets only grow from block to block.
proof fn lemma_block_end_grows(blocks: Seq<Seq<u8>>, i: nat, j: nat)
    requires
        i <= j,
    ensures
        block_end(blocks, i) <= block_end(blocks, j),
    decreases j,
{
    if i < j {
        lemma_block_end_grows(blocks, i, (j - 1) as nat);
    }
}

/// The least multiple of sixteen that is not below `n`.
fn align(n: u64) -> (aligned: u64)
    requires
        n <= u64::MAX - 15,
    ensures
        aligned == align16(n as nat),
{
    let mut aligned: u64 = n;
    if aligned % 16 != 0 {
        aligned = aligned + (16 - aligned % 16);
    }
    aligned
}

/// The offset and length of each block, and where the last one ends.
fn lay_out(blocks: &Vec<Vec<u8>>) -> (layout: (Vec<(u32, u32)>, u64))
    requires
        blocks@.len() >= 1,
        block_end(contents(blocks@), (blocks@.len() - 1) as nat) <= isize::MAX,
    ensures
        layout.0@.len() == blocks@.len(),
        layout.0@[0] == (0u32, 0u32),
        forall|i: int|
            0 < i < blocks@.len() ==> #[trigger] layout.0@[i] == (
                block_offset(contents(blocks@), i as nat) as u32,
                blocks@[i]@.len() as u32,
            ),
        layout.1 == block_end(contents(blocks@), (blocks@.len() - 1) as nat),
{
    let ghost all = contents(blocks@);
    let mut entries: Vec<(u32, u32)> = Vec::new();
    entries.push((0, 0));
    let mut end: u64 = HEADER_SIZE;
    let mut i: usize = 1;
    while i < blocks.len()
        invariant
            1 <= i <= blocks@.len(),
            all == contents(blocks@),
            block_end(all, (blocks@.len() - 1) as nat) <= isize::MAX,
            end == block_end(all, (i - 1) as nat),
            entries@.len() == i,
            entries@[0] == (0u32, 0u32),
            forall|j: int|
                0 < j < i ==> #[trigger] entries@[j] == (
                    block_offset(all, j as nat) as u32,
                    blocks@[j]@.len() as u32,
                ),
        decreases blocks.len() - i,
    {
        proof {
            lemma_block_end_grows(all, i as nat, (blocks@.len() - 1) as nat);
            lemma_block_end_grows(all, (i - 1) as nat, (blocks@.len() - 1) as nat);
            assert(all[i as int].len() == blocks@[i as int]@.len());
        }
        let offset = align(end);
        entries.push((offset as u32, blocks[i].len() as u32));
        end = offset + blocks[i].len() as u64;
        i = i + 1;
    }
    (entries, end)
}

/// The file header.
fn build_store_header(
    blocks: u32,
    index_at: u32,
    index_len: u32,
    vars_at: u32,
    vars_len: u32,
) -> (out: Vec<u8>)
    ensures
        out@ == be32(STORE_MAGIC_HIGH) + be32(STORE_MAGIC_LOW) + be32(1) + be32(blocks) + be32(
            index_at,
        ) + be32(index_len) + be32(vars_at) + be32(vars_len),
{
    let mut out: Vec<u8> = Vec::new();
    put_be32(&mut out, STORE_MAGIC_HIGH);
    put_be32(&mut out, STORE_MAGIC_LOW);
    put_be32(&mut out, 1);
    put_be32(&mut out, blocks);
    put_be32(&mut out, index_at);
    put_be32(&mut out, index_len);
    put_be32(&mut out, vars_at);
    put_be32(&mut out, vars_len);
    out
}

/// The index section.
fn build_index(blocks: &Vec<Vec<u8>>, layout: &Vec<(u32, u32)>) -> (data: Vec<u8>)
    requires
        blocks@.len() >= 1,
        layout@.len() == blocks@.len(),
        layout@[0] == (0u32, 0u32),
        forall|i: int|
            0 < i < blocks@.len() ==> #[trigger] layout@[i] == (
                block_offset(contents(blocks@), i as nat) as u32,
                blocks@[i]@.len() as u32,
            ),
    ensures
        data@ == index_section(contents(blocks@)),
{
    proof {
        reveal(index_section);
    }
    let ghost all = contents(blocks@);
    let size: usize = if blocks.len() < MIN_TABLE_SIZE {
        MIN_TABLE_SIZE
    } else {
        blocks.len()
    };
    let mut data: Vec<u8> = Vec::new();
    put_be32(&mut data, size as u32);
    let ghost head = data@;
    let mut i: usize = 0;
    assert(data@ =~= head + block_table(all, 0));
    while i < size
        invariant
            i <= size,
            all == contents(blocks@),
            blocks@.len() >= 1,
            layout@.len() == blocks@.len(),
            layout@[0] == (0u32, 0u32),
            forall|i: int|
                0 < i < blocks@.len() ==> #[trigger] layout@[i] == (
                    block_offset(all, i as nat) as u32,
                    blocks@[i]@.len() as u32,
                ),
            data@ == head + block_table(all, i as nat),
        decreases size - i,
    {
        let ghost data_before = data@;
        if i < layout.len() {
            put_be32(&mut data, layout[i].0);
            put_be32(&mut data, layout[i].1);
        } else {
            put_be32(&mut data, 0);
            put_be32(&mut data, 0);
        }
        proof {
            assert(i < all.len() ==> all[i as int].len() == blocks@[i as int]@.len());
            assert(data@ =~= data_before + table_entry(all, i as nat));
        }
        i = i + 1;
        assert(data@ =~= head + block_table(all, i as nat));
    }
    put_zeros(&mut data, FREELIST_SIZE);
    data
}

impl BomWriter {
    /// The variables section.
    fn build_vars(&self) -> (data: Vec<u8>)
        ensures
            data@ == vars_section(self.names()),
    {
        let ghost names = self.names();
        let n: usize = name_index_len(&self.named_blocks);
        let mut data: Vec<u8> = Vec::new();
        put_be32(&mut data, n as u32);
        let ghost head = data@;
        let mut i: usize = 0;
        assert(data@ =~= head + name_records(names.take(0)));
        while i < n
            invariant
                i <= n,
                n == names.len(),
                names == self.names(),
                data@ == head + name_records(names.take(i as int)),
            decreases n - i,
        {
            let ghost data_before = data@;
            let (name, block) = name_index_entry(&self.named_blocks, i);
            let encoded = name.as_bytes();
            put_be32(&mut data, block as u32);
            data.push(encoded.len() as u8);
            put_bytes(&mut data, encoded);
            proof {
                assert(data@ =~= data_before + name_record(names[i as int]));
                assert(names.take(i + 1).drop_last() =~= names.take(i as int));
            }
            i = i + 1;
            assert(data@ =~= head + name_records(names.take(i as int)));
        }
        assert(names.take(i as int) =~= names);
        data
    }

    /// The file that holds all blocks and names.
    pub fn to_bytes(&self) -> (out: Vec<u8>)
        requires
            self.wf(),
            index_offset(self.blocks(), self.names()) <= isize::MAX,
        ensures
            out@ == store_image(self.blocks(), self.names()),
    {
        proof {
            reveal(store_image);
            reveal(store_header);
        }
        let ghost all = self.blocks();
        let ghost names = self.names();
        let (layout, end) = lay_out(&self.blocks);
        let index = build_index(&self.blocks, &layout);
        let vars = self.build_vars();
        let vars_at = align(end);
        let vars_len: u32 = vars.len() as u32;
        let index_at = align(vars_at + vars_len as u64);
        let mut out = build_store_header(
            self.blocks.len() as u32,
            index_at as u32,
            index.len() as u32,
            vars_at as u32,
            vars_len,
        );
        let ghost head = out@;
        assert(head == store_header(all, names));
        let mut i: usize = 1;
        while i < self.blocks.len()
            invariant
                1 <= i <= self.blocks@.len(),
                all == contents(self.blocks@),
                layout@.len() == self.blocks@.len(),
                forall|i: int|
                    0 < i < self.blocks@.len() ==> #[trigger] layout@[i] == (
                        block_offset(all, i as nat) as u32,
                        self.blocks@[i]@.len() as u32,
                    ),
                out@ == data_section(head, all, i as nat),
            decreases self.blocks.len() - i,
        {
            pad(&mut out, layout[i].0 as usize);
            put_bytes(&mut out, self.blocks[i].as_slice());
            i = i + 1;
        }
        pad_to(&mut out, vars_at);
        put_bytes(&mut out, vars.as_slice());
        pad_to(&mut out, index_at);
        put_bytes(&mut out, index.as_slice());
        out
    }
}

/// Where the last block ends, if the file up to there fits in memory.
fn find_end(blocks: &Vec<Vec<u8>>) -> (found: Option<u64>)
    requires
        blocks@.len() >= 1,
    ensures
        match found {
            Some(end) => end <= isize::MAX && end == block_end(
                contents(blocks@),
                (blocks@.len() - 1) as nat,
            ),
            None => block_end(contents(blocks@), (blocks@.len() - 1) as nat) > isize::MAX,
        },
{
    let ghost all = contents(blocks@);
    let mut end: u64 = HEADER_SIZE;
    let mut i: usize = 1;
    while i < blocks.len()
        invariant
            1 <= i <= blocks@.len(),
            all == contents(blocks@),
            end <= isize::MAX,
            end == block_end(all, (i - 1) as nat),
        decreases blocks.len() - i,
    {
        let next: u128 = align(end) as u128 + blocks[i].len() as u128;
        assert(next == block_end(all, i as nat));
        if next > isize::MAX as u128 {
            proof {
                lemma_block_end_grows(all, i as nat, (blocks@.len() - 1) as nat);
            }
            return None;
        }
        end = next as u64;
        i = i + 1;
    }
    Some(end)
}

impl BomWriter {
    /// The file that holds all blocks and names, if it fits in memory.
    pub fn try_to_bytes(&self) -> (out: Option<Vec<u8>>)
        requires
            self.wf(),
        ensures
            match out {
                Some(file) => index_offset(self.blocks(), self.names()) <= isize::MAX && file@
                    == store_image(self.blocks(), self.names()),
                None => index_offset(self.blocks(), self.names()) > isize::MAX,
            },
    {
        let end: u64 = match find_end(&self.blocks) {
            Some(end) => end,
            None => {
                return None;
            },
        };
        let vars = self.build_vars();
        let vars_len: u32 = vars.len() as u32;
        let index_at: u64 = align(align(end) + vars_len as u64);
        if index_at > isize::MAX as u64 {
            return None;
        }
        Some(self.to_bytes())
    }
}

/// Pads `out` with zeros to at least `n` bytes.
fn pad_to(out: &mut Vec<u8>, n: u64)
    requires
        n <= usize::MAX,
    ensures
        final(out)@ == padded(old(out)@, n as nat),
{
    pad(out, n as usize);
}

/// The block table has eight bytes for each entry, and the `i`-th eight are the
/// entry of block `i`.
proof fn lemma_block_table(blocks: Seq<Seq<u8>>, n: nat, i: int)
    requires
        0 <= i < n,
    ensures
        block_table(blocks, n).len() == 8 * n,
        block_table(blocks, n).subrange(8 * i, 8 * i + 8) == table_entry(blocks, i as nat),
    decreases n,
{
    let rest = block_table(blocks, (n - 1) as nat);
    if n > 1 {
        lemma_block_table(blocks, (n - 1) as nat, 0);
    }
    assert(rest.len() == 8 * (n - 1));
    if i == n - 1 {
        assert(block_table(blocks, n).subrange(8 * i, 8 * i + 8) =~= table_entry(blocks, i as nat));
    } else {
        lemma_block_table(blocks, (n - 1) as nat, i);
        assert(block_table(blocks, n).subrange(8 * i, 8 * i + 8) =~= rest.subrange(
            8 * i,
            8 * i + 8,
        ));
    }
}

/// As long as offsets fit their fields, the data section ends where the last
/// block does, and block `i` stands at its offset.
proof fn lemma_data_section(head: Seq<u8>, blocks: Seq<Seq<u8>>, n: nat, i: int)
    requires
        head.len() == HEADER_SIZE,
        1 <= n <= blocks.len(),
        0 <= i < n,
        block_end(blocks, (n - 1) as nat) <= u32::MAX,
    ensures
        data_section(head, blocks, n).len() == block_end(blocks, (n - 1) as nat),
        data_section(head, blocks, n).take(HEADER_SIZE as int) == head,
        i > 0 ==> {
            let at = block_offset(blocks, i as nat) as int;
            &&& at + blocks[i].len() <= block_end(blocks, (n - 1) as nat)
            &&& data_section(head, blocks, n).subrange(at, at + blocks[i].len()) == blocks[i]
        },
    decreases n,
{
    let all = data_section(head, blocks, n);
    if n == 1 {
        assert(all.take(HEADER_SIZE as int) =~= head);
    } else {
        let m = (n - 1) as nat;
        let rest = data_section(head, blocks, m);
        lemma_block_end_grows(blocks, (m - 1) as nat, m);
        lemma_block_end_grows(blocks, 0, (m - 1) as nat);
        lemma_data_section(head, blocks, m, if i < m { i } else { 0 });
        assert(all.take(HEADER_SIZE as int) =~= rest.take(HEADER_SIZE as int));
        if i > 0 {
            let at = block_offset(blocks, i as nat) as int;
            let end = at + blocks[i].len();
            if i == m {
                assert(all.subrange(at, end) =~= blocks[i]);
            } else {
                assert(all.subrange(at, end) =~= rest.subrange(at, end));
            }
        }
    }
}

/// A part of a part of a byte string.
proof fn lemma_part_of_part(s: Seq<u8>, a: int, b: int, c: int, d: int)
    requires
        0 <= a <= b <= s.len(),
        0 <= c <= d <= b - a,
    ensures
        s.subrange(a, b).subrange(c, d) == s.subrange(a + c, a + d),
{
    assert(s.subrange(a, b).subrange(c, d) =~= s.subrange(a + c, a + d));
}

/// A number read inside a part is the number read there in the whole.
proof fn lemma_read_in_part(s: Seq<u8>, a: int, b: int, k: int)
    requires
        0 <= a <= b <= s.len(),
        0 <= k,
        k + 4 <= b - a,
    ensures
        read_be32(s, a + k) == read_be32(s.subrange(a, b), k),
{
}

/// The file begins with the header and the blocks and ends with the index.
proof fn lemma_store_parts(blocks: Seq<Seq<u8>>, names: Seq<(Seq<char>, usize)>)
    requires
        blocks.len() >= 1,
        vars_section(names).len() <= u32::MAX,
        index_offset(blocks, names) <= u32::MAX,
    ensures
        ({
            let file = store_image(blocks, names);
            let head = store_header(blocks, names);
            let data = data_section(head, blocks, blocks.len());
            let vars_at = vars_offset(blocks) as int;
            let vars = vars_section(names);
            let index_at = index_offset(blocks, names) as int;
            let index = index_section(blocks);
            &&& block_end(blocks, (blocks.len() - 1) as nat) <= u32::MAX
            &&& head.len() == HEADER_SIZE
            &&& HEADER_SIZE <= data.len() <= vars_at
            &&& vars_at + vars.len() <= index_at
            &&& file.len() == index_at + index.len()
            &&& file.subrange(0, HEADER_SIZE as int) == head
            &&& file.subrange(0, data.len() as int) == data
            &&& file.subrange(vars_at, vars_at + vars.len()) == vars
            &&& file.subrange(index_at, index_at + index.len()) == index
        }),
{
    reveal(store_image);
    reveal(store_header);
    let file = store_image(blocks, names);
    let head = store_header(blocks, names);
    let last = (blocks.len() - 1) as nat;
    let data = data_section(head, blocks, blocks.len());
    lemma_data_section(head, blocks, blocks.len(), 0);
    lemma_block_end_grows(blocks, 0, last);
    assert(file.subrange(0, HEADER_SIZE as int) =~= data.take(HEADER_SIZE as int));
    assert(file.subrange(0, data.len() as int) =~= data);
    let vars_at = vars_offset(blocks) as int;
    let vars = vars_section(names);
    assert(file.subrange(vars_at, vars_at + vars.len()) =~= vars);
    let index_at = index_offset(blocks, names) as int;
    let index = index_section(blocks);
    assert(file.subrange(index_at, index_at + index.len()) =~= index);
}

/// The header fields that lead to the index and to the names.
proof fn lemma_header_fields(blocks: Seq<Seq<u8>>, names: Seq<(Seq<char>, usize)>)
    requires
        blocks.len() >= 1,
        vars_section(names).len() <= u32::MAX,
        index_offset(blocks, names) <= u32::MAX,
    ensures
        read_be32(store_image(blocks, names), 16) == index_offset(blocks, names),
        read_be32(store_image(blocks, names), 24) == vars_offset(blocks),
        read_be32(store_image(blocks, names), 28) == vars_section(names).len(),
{
    reveal(store_header);
    let file = store_image(blocks, names);
    let head = store_header(blocks, names);
    lemma_store_parts(blocks, names);
    lemma_part_of_part(file, 0, HEADER_SIZE as int, 16, 20);
    lemma_part_of_part(file, 0, HEADER_SIZE as int, 24, 28);
    lemma_part_of_part(file, 0, HEADER_SIZE as int, 28, 32);
    assert(head.subrange(16, 20) =~= be32(index_offset(blocks, names) as u32));
    assert(head.subrange(24, 28) =~= be32(vars_offset(blocks) as u32));
    assert(head.subrange(28, 32) =~= be32(vars_section(names).len() as u32));
    be32_reads_back(file, 16, index_offset(blocks, names) as u32);
    be32_reads_back(file, 24, vars_offset(blocks) as u32);
    be32_reads_back(file, 28, vars_section(names).len() as u32);
}

/// The fields of the table entry of a block.
proof fn lemma_index_fields(blocks: Seq<Seq<u8>>, i: int)
    requires
        0 < i < blocks.len(),
        block_end(blocks, (blocks.len() - 1) as nat) <= u32::MAX,
    ensures
        index_section(blocks).len() >= 12 + 8 * i,
        read_be32(index_section(blocks), 4 + 8 * i) == block_offset(blocks, i as nat),
        blocks[i].len() <= u32::MAX,
        read_be32(index_section(blocks), 8 + 8 * i) == blocks[i].len(),
{
    reveal(index_section);
    let section = index_section(blocks);
    let n = table_size(blocks);
    let table = block_table(blocks, n);
    let at = block_offset(blocks, i as nat);
    let len = blocks[i].len();
    let entry = table_entry(blocks, i as nat);
    lemma_block_table(blocks, n, i);
    lemma_block_end_grows(blocks, i as nat, (blocks.len() - 1) as nat);
    assert(section.subrange(4, (4 + 8 * n) as int) =~= table);
    lemma_part_of_part(section, 4, (4 + 8 * n) as int, 8 * i, 8 * i + 8);
    assert(section.subrange(4 + 8 * i, 12 + 8 * i) == entry);
    lemma_part_of_part(section, 4 + 8 * i, 12 + 8 * i, 0, 4);
    lemma_part_of_part(section, 4 + 8 * i, 12 + 8 * i, 4, 8);
    assert(entry.subrange(0, 4) =~= be32(at as u32));
    assert(entry.subrange(4, 8) =~= be32(len as u32));
    be32_reads_back(section, 4 + 8 * i, at as u32);
    be32_reads_back(section, 8 + 8 * i, len as u32);
}

/// The table entry of a block, read in the file.
proof fn lemma_index_in_file(blocks: Seq<Seq<u8>>, names: Seq<(Seq<char>, usize)>, i: int)
    requires
        0 < i < blocks.len(),
        vars_section(names).len() <= u32::MAX,
        index_offset(blocks, names) <= u32::MAX,
    ensures
        read_be32(store_image(blocks, names), index_offset(blocks, names) + 4 + 8 * i)
            == block_offset(blocks, i as nat),
        read_be32(store_image(blocks, names), index_offset(blocks, names) + 8 + 8 * i)
            == blocks[i].len(),
{
    let file = store_image(blocks, names);
    let index = index_offset(blocks, names) as int;
    let section = index_section(blocks);
    lemma_store_parts(blocks, names);
    lemma_index_fields(blocks, i);
    lemma_read_in_part(file, index, index + section.len(), 4 + 8 * i);
    lemma_read_in_part(file, index, index + section.len(), 8 + 8 * i);
}

/// The data of a block, read in the file.
proof fn lemma_block_in_file(blocks: Seq<Seq<u8>>, names: Seq<(Seq<char>, usize)>, i: int)
    requires
        0 < i < blocks.len(),
        vars_section(names).len() <= u32::MAX,
        index_offset(blocks, names) <= u32::MAX,
    ensures
        store_image(blocks, names).subrange(
            block_offset(blocks, i as nat) as int,
            (block_offset(blocks, i as nat) + blocks[i].len()) as int,
        ) == blocks[i],
{
    let file = store_image(blocks, names);
    let head = store_header(blocks, names);
    let data = data_section(head, blocks, blocks.len());
    let at = block_offset(blocks, i as nat) as int;
    let len = blocks[i].len() as int;
    lemma_store_parts(blocks, names);
    lemma_data_section(head, blocks, blocks.len(), i);
    lemma_part_of_part(file, 0, data.len() as int, at, at + len);
}

/// A store can be read back.  In a file whose offsets fit their fields the
/// header leads to the index, the index gives the offset and the length of
/// every block, offsets are multiples of sixteen, and the block stands there.
#[verifier::spinoff_prover]
pub proof fn stored_blocks_read_back(
    blocks: Seq<Seq<u8>>,
    names: Seq<(Seq<char>, usize)>,
    i: int,
)
    requires
        0 < i < blocks.len(),
        vars_section(names).len() <= u32::MAX,
        index_offset(blocks, names) <= u32::MAX,
    ensures
        ({
            let file = store_image(blocks, names);
            let index = read_be32(file, 16) as int;
            let at = read_be32(file, index + 4 + 8 * i) as int;
            let len = read_be32(file, index + 8 + 8 * i) as int;
            &&& index == index_offset(blocks, names)
            &&& at == block_offset(blocks, i as nat)
            &&& at % 16 == 0
            &&& len == blocks[i].len()
            &&& file.subrange(at, at + len) == blocks[i]
        }),
{
    let file = store_image(blocks, names);
    assert(read_be32(file, 16) == index_offset(blocks, names)) by {
        lemma_header_fields(blocks, names);
    }
    let index = index_offset(blocks, names) as int;
    assert(read_be32(file, index + 4 + 8 * i) == block_offset(blocks, i as nat)
        && read_be32(file, index + 8 + 8 * i) == blocks[i].len()) by {
        lemma_index_in_file(blocks, names, i);
    }
    lemma_block_in_file(blocks, names, i);
}

/// The index gives block 0 no offset and no length.
pub proof fn block_zero_has_no_place(blocks: Seq<Seq<u8>>, names: Seq<(Seq<char>, usize)>)
    requires
        blocks.len() >= 1,
        vars_section(names).len() <= u32::MAX,
        index_offset(blocks, names) <= u32::MAX,
    ensures
        ({
            let file = store_image(blocks, names);
            let index = read_be32(file, 16) as int;
            &&& read_be32(file, index + 4) == 0
            &&& read_be32(file, index + 8) == 0
        }),
{
    let file = store_image(blocks, names);
    let index = index_offset(blocks, names) as int;
    let section = index_section(blocks);
    lemma_header_fields(blocks, names);
    lemma_store_parts(blocks, names);
    lemma_first_index_fields(blocks);
    lemma_read_in_part(file, index, index + section.len(), 4);
    lemma_read_in_part(file, index, index + section.len(), 8);
}

/// The fields of the table entry of block 0.
proof fn lemma_first_index_fields(blocks: Seq<Seq<u8>>)
    ensures
        index_section(blocks).len() >= 12,
        read_be32(index_section(blocks), 4) == 0,
        read_be32(index_section(blocks), 8) == 0,
{
    reveal(index_section);
    let section = index_section(blocks);
    let n = table_size(blocks);
    let table = block_table(blocks, n);
    let entry = table_entry(blocks, 0);
    lemma_block_table(blocks, n, 0);
    assert(section.subrange(4, (4 + 8 * n) as int) =~= table);
    lemma_part_of_part(section, 4, (4 + 8 * n) as int, 0, 8);
    assert(section.subrange(4, 12) == entry);
    lemma_part_of_part(section, 4, 12, 0, 4);
    lemma_part_of_part(section, 4, 12, 4, 8);
    assert(entry.subrange(0, 4) =~= be32(0));
    assert(entry.subrange(4, 8) =~= be32(0));
    be32_reads_back(section, 4, 0);
    be32_reads_back(section, 8, 0);
}

/// The first fields of the file header.
proof fn lemma_header_start(blocks: Seq<Seq<u8>>, names: Seq<(Seq<char>, usize)>)
    ensures
        store_header(blocks, names).len() == HEADER_SIZE,
        store_header(blocks, names).subrange(0, 8) == be32(STORE_MAGIC_HIGH) + be32(
            STORE_MAGIC_LOW,
        ),
        store_header(blocks, names).subrange(8, 12) == be32(1),
        store_header(blocks, names).subrange(12, 16) == be32(blocks.len() as u32),
{
    reveal(store_header);
    let head = store_header(blocks, names);
    assert(head.subrange(0, 8) =~= be32(STORE_MAGIC_HIGH) + be32(STORE_MAGIC_LOW));
    assert(head.subrange(8, 12) =~= be32(1));
    assert(head.subrange(12, 16) =~= be32(blocks.len() as u32));
}

/// The mark of a store.
proof fn lemma_store_mark()
    ensures
        be32(STORE_MAGIC_HIGH) + be32(STORE_MAGIC_LOW) == seq![
            66u8,
            79,
            77,
            83,
            116,
            111,
            114,
            101,
        ],
{
    assert(be32(STORE_MAGIC_HIGH) =~= seq![66u8, 79, 77, 83]);
    assert(be32(STORE_MAGIC_LOW) =~= seq![116u8, 111, 114, 101]);
    assert(be32(STORE_MAGIC_HIGH) + be32(STORE_MAGIC_LOW) =~= seq![
        66u8,
        79,
        77,
        83,
        116,
        111,
        114,
        101,
    ]);
}

/// A store is known by its header: its mark, version 1, and how many blocks it has.
pub proof fn store_headers_read_back(blocks: Seq<Seq<u8>>, names: Seq<(Seq<char>, usize)>)
    requires
        1 <= blocks.len() <= u32::MAX,
        vars_section(names).len() <= u32::MAX,
        index_offset(blocks, names) <= u32::MAX,
    ensures
        ({
            let file = store_image(blocks, names);
            &&& file.len() >= HEADER_SIZE
            &&& file.take(8) == seq![66u8, 79, 77, 83, 116, 111, 114, 101]
            &&& read_be32(file, 8) == 1
            &&& read_be32(file, 12) == blocks.len()
        }),
{
    let file = store_image(blocks, names);
    lemma_store_parts(blocks, names);
    lemma_header_start(blocks, names);
    lemma_store_mark();
    lemma_part_of_part(file, 0, HEADER_SIZE as int, 0, 8);
    lemma_part_of_part(file, 0, HEADER_SIZE as int, 8, 12);
    lemma_part_of_part(file, 0, HEADER_SIZE as int, 12, 16);
    assert(file.take(8) == file.subrange(0, 8));
    be32_reads_back(file, 8, 1);
    be32_reads_back(file, 12, blocks.len() as u32);
}

/// The data of two blocks never overlaps.
pub proof fn stored_blocks_stay_apart(blocks: Seq<Seq<u8>>, i: nat, j: nat)
    requires
        0 < i < j < blocks.len(),
    ensures
        block_offset(blocks, i) + blocks[i as int].len() <= block_offset(blocks, j),
{
    lemma_block_end_grows(blocks, i, (j - 1) as nat);
}

/// The header leads to the names, which stand in the order they first came.
pub proof fn stored_names_read_back(blocks: Seq<Seq<u8>>, names: Seq<(Seq<char>, usize)>)
    requires
        blocks.len() >= 1,
        vars_section(names).len() <= u32::MAX,
        index_offset(blocks, names) <= u32::MAX,
    ensures
        ({
            let file = store_image(blocks, names);
            let at = read_be32(file, 24) as int;
            let len = read_be32(file, 28) as int;
            &&& len == vars_section(names).len()
            &&& at + len <= file.len()
            &&& file.subrange(at, at + len) == be32(names.len() as u32) + name_records(names)
        }),
{
    lemma_store_parts(blocks, names);
    lemma_header_fields(blocks, names);
}

/// An entry table has eight bytes for each entry: the number of the block of
/// its value, then that of the block of its key.
proof fn lemma_entry_table(first: nat, n: nat, e: int)
    requires
        0 <= e < n,
    ensures
        entry_table(first, n).len() == 8 * n,
        entry_table(first, n).subrange(8 * e, 8 * e + 4) == be32((first + 2 * e) as u32),
        entry_table(first, n).subrange(8 * e + 4, 8 * e + 8) == be32((first + 2 * e + 1) as u32),
    decreases n,
{
    let all = entry_table(first, n);
    let rest = entry_table(first, (n - 1) as nat);
    if n > 1 {
        lemma_entry_table(first, (n - 1) as nat, 0);
    }
    assert(rest.len() == 8 * (n - 1));
    if e == n - 1 {
        assert(all.subrange(8 * e, 8 * e + 4) =~= be32((first + 2 * e) as u32));
        assert(all.subrange(8 * e + 4, 8 * e + 8) =~= be32((first + 2 * e + 1) as u32));
    } else {
        lemma_entry_table(first, (n - 1) as nat, e);
        assert(all.subrange(8 * e, 8 * e + 4) =~= rest.subrange(8 * e, 8 * e + 4));
        assert(all.subrange(8 * e + 4, 8 * e + 8) =~= rest.subrange(8 * e + 4, 8 * e + 8));
    }
}

/// A leaf begins with its header and its entry table, whatever follows.
pub proof fn lemma_leaf_prefix(
    entries: Seq<(Seq<u8>, Seq<u8>)>,
    first: nat,
    forward: nat,
    backward: nat,
    block_size: u32,
    key_size: nat,
)
    requires
        12 + 8 * entries.len() <= block_size,
    ensures
        leaf_node(entries, first, forward, backward, block_size, key_size).len() >= 12 + 8
            * entries.len(),
        leaf_node(entries, first, forward, backward, block_size, key_size).take(
            (12 + 8 * entries.len()) as int,
        ) == leaf_head(entries.len(), forward, backward) + entry_table(first, entries.len()),
{
    reveal(leaf_node);
    let n = entries.len();
    let head = leaf_head(n, forward, backward) + entry_table(first, n);
    let node = leaf_node(entries, first, forward, backward, block_size, key_size);
    if n > 0 {
        lemma_entry_table(first, n, 0);
    }
    assert(head.len() == 12 + 8 * n);
    assert(node.take(head.len() as int) =~= head);
}

/// Whether row `row` of the leaf `leaf` leads to the block `value` and the block
/// `key` of a store.
pub open spec fn row_leads_to(leaf: Seq<u8>, row: int, value: int, key: int) -> bool {
    &&& 20 + 8 * row <= leaf.len()
    &&& read_be32(leaf, 12 + 8 * row) == value
    &&& read_be32(leaf, 16 + 8 * row) == key
}

/// A row of a leaf leads to the blocks of its entry.
pub proof fn lemma_leaf_row(
    entries: Seq<(Seq<u8>, Seq<u8>)>,
    first: nat,
    forward: nat,
    backward: nat,
    block_size: u32,
    key_size: nat,
    e: int,
)
    requires
        12 + 8 * entries.len() <= block_size,
        0 <= e < entries.len(),
        first + 2 * entries.len() <= u32::MAX,
    ensures
        row_leads_to(
            leaf_node(entries, first, forward, backward, block_size, key_size),
            e,
            first + 2 * e,
            first + 2 * e + 1,
        ),
{
    let n = entries.len();
    let node = leaf_node(entries, first, forward, backward, block_size, key_size);
    let table = entry_table(first, n);
    lemma_leaf_prefix(entries, first, forward, backward, block_size, key_size);
    lemma_entry_table(first, n, e);
    let start = node.take((12 + 8 * n) as int);
    assert(start.subrange(12, (12 + 8 * n) as int) =~= table);
    assert(node.subrange(12 + 8 * e, 16 + 8 * e) =~= table.subrange(8 * e, 8 * e + 4)) by {
        assert(node.subrange(12 + 8 * e, 16 + 8 * e) =~= start.subrange(
            12,
            (12 + 8 * n) as int,
        ).subrange(8 * e, 8 * e + 4));
    }
    assert(node.subrange(16 + 8 * e, 20 + 8 * e) =~= table.subrange(8 * e + 4, 8 * e + 8)) by {
        assert(node.subrange(16 + 8 * e, 20 + 8 * e) =~= start.subrange(
            12,
            (12 + 8 * n) as int,
        ).subrange(8 * e + 4, 8 * e + 8));
    }
    be32_reads_back(node, 12 + 8 * e, (first + 2 * e) as u32);
    be32_reads_back(node, 16 + 8 * e, (first + 2 * e + 1) as u32);
}

/// Entry `e` stands in row `e % per` of leaf `e / per`.
pub proof fn lemma_place_in_leaf(n: nat, block_size: u32, e: int)
    requires
        block_size >= 20,
        0 <= e < n,
    ensures
        ({
            let per = per_leaf(block_size);
            let i = e / per as int;
            &&& 0 <= i < leaf_count(n, block_size)
            &&& 0 <= e % per as int
            &&& e == i * per + e % per as int
            &&& e % (per as int) < per
            &&& (i + 1) * per == i * per + per
            &&& i * per <= e
        }),
{
    let per = per_leaf(block_size);
    let leaves = leaf_count(n, block_size);
    let i = e / per as int;
    let row = e % per as int;
    lemma_leaf_bounds(n, block_size);
    vstd::arithmetic::div_mod::lemma_fundamental_div_mod(e, per as int);
    vstd::arithmetic::div_mod::lemma_mod_bound(e, per as int);
    assert(per * i == i * per) by (nonlinear_arith);
    assert(i < leaves) by (nonlinear_arith)
        requires
            i * per <= e,
            e < n,
            n <= leaves * per,
            per >= 1,
    ;
    assert(i >= 0) by (nonlinear_arith)
        requires
            i * per + row == e,
            0 <= row < per,
            e >= 0,
    ;
    assert((i + 1) * per == i * per + per) by (nonlinear_arith);
}

/// Where leaves and entry blocks of a tree with several leaves stand.
pub proof fn lemma_deep_tree_parts(
    base: nat,
    entries: Seq<(Seq<u8>, Seq<u8>)>,
    block_size: u32,
    key_size: nat,
    i: int,
    j: int,
)
    requires
        block_size >= 20,
        entries.len() > per_leaf(block_size),
        0 <= i < leaf_count(entries.len(), block_size),
        0 <= j < 2 * entries.len(),
    ensures
        ({
            let blocks = tree_blocks(base, entries, block_size, key_size);
            let leaves = leaf_count(entries.len(), block_size);
            &&& blocks.len() == 2 * leaves + 2 * entries.len() + 1
            &&& blocks[i] == leaf_nodes(base, entries, block_size, key_size)[i]
            &&& blocks[leaves + j] == entry_blocks(entries)[j]
        }),
{
    reveal(tree_blocks);
    lemma_leaf_bounds(entries.len(), block_size);
}

/// Whether a row of a leaf among `blocks` leads to a value and a key block that
/// hold `entry`; `place` names leaf, row, value and key, the blocks counted from
/// `base`.
pub open spec fn entry_found_at(
    base: nat,
    blocks: Seq<Seq<u8>>,
    entry: (Seq<u8>, Seq<u8>),
    place: (int, int, int, int),
) -> bool {
    let (leaf, row, value, key) = place;
    &&& 0 <= leaf < blocks.len()
    &&& 0 <= value < blocks.len()
    &&& 0 <= key < blocks.len()
    &&& 0 <= row
    &&& row_leads_to(blocks[leaf], row, base + value, base + key)
    &&& blocks[value] == entry.1
    &&& blocks[key] == entry.0
}

/// A tree with one leaf holds entry `e`.
proof fn lemma_flat_tree_holds(
    base: nat,
    entries: Seq<(Seq<u8>, Seq<u8>)>,
    block_size: u32,
    key_size: nat,
    e: int,
)
    requires
        block_size >= 20,
        0 <= e < entries.len(),
        entries.len() <= per_leaf(block_size),
        base + tree_blocks(base, entries, block_size, key_size).len() <= u32::MAX,
    ensures
        entry_found_at(
            base,
            tree_blocks(base, entries, block_size, key_size),
            entries[e],
            ((2 * entries.len()) as int, e, 2 * e, 2 * e + 1),
        ),
{
    reveal(tree_blocks);
    let blocks = tree_blocks(base, entries, block_size, key_size);
    let n = entries.len();
    let leaf = leaf_node(entries, base, 0, 0, block_size, key_size);
    assert(blocks.len() == 2 * n + 2);
    assert(blocks[(2 * n) as int] == leaf);
    assert(blocks[2 * e] == entry_blocks(entries)[2 * e]);
    assert(blocks[2 * e + 1] == entry_blocks(entries)[2 * e + 1]);
    lemma_leaf_row(entries, base, 0, 0, block_size, key_size, e);
}

/// A tree with several leaves holds entry `e`.
proof fn lemma_deep_tree_holds(
    base: nat,
    entries: Seq<(Seq<u8>, Seq<u8>)>,
    block_size: u32,
    key_size: nat,
    e: int,
)
    requires
        block_size >= 20,
        0 <= e < entries.len(),
        entries.len() > per_leaf(block_size),
        base + tree_blocks(base, entries, block_size, key_size).len() <= u32::MAX,
    ensures
        ({
            let per = per_leaf(block_size) as int;
            let leaves = leaf_count(entries.len(), block_size);
            entry_found_at(
                base,
                tree_blocks(base, entries, block_size, key_size),
                entries[e],
                (e / per, e % per, leaves + 2 * e, leaves + 2 * e + 1),
            )
        }),
{
    let n = entries.len();
    let per = per_leaf(block_size);
    let leaves = leaf_count(n, block_size);
    let i = e / per as int;
    let row = e % per as int;
    lemma_place_in_leaf(n, block_size, e);
    let part = batch(entries, i as nat, per);
    let first = (base + leaves + 2 * (i * per)) as nat;
    let forward = forward_link(base, i as nat, leaves);
    let backward = backward_link(base, i as nat);
    lemma_deep_tree_parts(base, entries, block_size, key_size, i, 2 * e);
    lemma_deep_tree_parts(base, entries, block_size, key_size, i, 2 * e + 1);
    assert(part.len() <= per && row < part.len());
    assert(first + 2 * part.len() <= u32::MAX) by {
        assert(i * per + part.len() <= n);
    }
    lemma_leaf_row(part, first, forward, backward, block_size, key_size, row);
    assert(first + 2 * row == base + (leaves + 2 * e));
}

/// A tree holds every one of its entries: some row of one of its leaves leads to
/// a block with the entry's value and a block with the entry's key.
pub proof fn tree_holds_every_entry(
    base: nat,
    entries: Seq<(Seq<u8>, Seq<u8>)>,
    block_size: u32,
    key_size: nat,
    e: int,
) -> (place: (int, int, int, int))
    requires
        block_size >= 20,
        0 <= e < entries.len(),
        base + tree_blocks(base, entries, block_size, key_size).len() <= u32::MAX,
    ensures
        entry_found_at(
            base,
            tree_blocks(base, entries, block_size, key_size),
            entries[e],
            place,
        ),
{
    let n = entries.len();
    let per = per_leaf(block_size) as int;
    if n <= per {
        lemma_flat_tree_holds(base, entries, block_size, key_size, e);
        ((2 * n) as int, e, 2 * e, 2 * e + 1)
    } else {
        lemma_deep_tree_holds(base, entries, block_size, key_size, e);
        let leaves = leaf_count(n, block_size);
        (e / per, e % per, leaves + 2 * e, leaves + 2 * e + 1)
    }
}

/// A tree adds at most four blocks for each entry, and two.
pub proof fn lemma_tree_blocks_len(
    base: nat,
    entries: Seq<(Seq<u8>, Seq<u8>)>,
    block_size: u32,
    key_size: nat,
)
    requires
        block_size >= 12,
        entries.len() > 0 ==> block_size >= 20,
    ensures
        2 <= tree_blocks(base, entries, block_size, key_size).len() <= 4 * entries.len() + 2,
{
    reveal(tree_blocks);
    if entries.len() > 0 {
        lemma_leaf_bounds(entries.len(), block_size);
    }
}

/// What a store holds.
pub struct Contents {
    pub blocks: Seq<Seq<u8>>,
    pub names: Seq<(Seq<char>, usize)>,
}

/// A store with nothing but block 0.
pub open spec fn no_contents() -> Contents {
    Contents { blocks: seq![Seq::<u8>::empty()], names: Seq::empty() }
}

/// A store with one more block, which has a name.
pub open spec fn plus_block(c: Contents, name: Seq<char>, data: Seq<u8>) -> Contents {
    Contents {
        blocks: c.blocks.push(data),
        names: with_entry(c.names, name, c.blocks.len() as usize),
    }
}

/// A store with one more tree.
pub open spec fn plus_tree(
    c: Contents,
    name: Seq<char>,
    entries: Seq<(Seq<u8>, Seq<u8>)>,
    block_size: u32,
    key_size: nat,
) -> Contents {
    let blocks = c.blocks + tree_blocks(c.blocks.len(), entries, block_size, key_size);
    Contents { blocks, names: with_entry(c.names, name, (blocks.len() - 1) as usize) }
}

/// A store with one more raw-keyed tree.
pub open spec fn plus_raw_tree(
    c: Contents,
    name: Seq<char>,
    entries: Seq<(u32, Seq<u8>)>,
    block_size: u32,
) -> Contents {
    let blocks = c.blocks + raw_tree_blocks(c.blocks.len(), entries, block_size);
    Contents { blocks, names: with_entry(c.names, name, (blocks.len() - 1) as usize) }
}

impl Default for BomWriter {
    /// A store with nothing but the empty block 0.
    fn default() -> (bom: Self)
        ensures
            bom.wf(),
            bom.blocks() == seq![Seq::<u8>::empty()],
            bom.names().len() == 0,
            bom.key_size() is None,
    {
        Self::new()
    }
}

} // verus!
