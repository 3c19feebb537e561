//! An archive: the tables of a catalog put into a store, in the order in which
//! readers look for them.

use vstd::prelude::*;

use crate::bom::{
    find_widest_key, index_offset, lemma_tree_blocks_len, no_contents, plus_block, plus_raw_tree,
    plus_tree, raw_contents, store_image, widest_key, BomWriter, Contents,
};
use crate::bytes::pair_contents;

verus! {

/// The size of the nodes of the trees of an archive.
pub const NODE_SIZE: u32 = 4096;

/// The size of the nodes of the tree of bitmap keys.
pub const BITMAP_NODE_SIZE: u32 = 1024;

/// What an archive holds.  Readers expect the renditions before all other trees.
pub open spec fn archive_contents(
    header: Seq<u8>,
    key_size: nat,
    renditions: Seq<(Seq<u8>, Seq<u8>)>,
    facets: Seq<(Seq<u8>, Seq<u8>)>,
    appearances: Option<Seq<(Seq<u8>, Seq<u8>)>>,
    keyformat: Seq<u8>,
    metadata: Seq<u8>,
    bitmaps: Seq<(u32, Seq<u8>)>,
) -> Contents {
    let a = plus_block(no_contents(), "CARHEADER"@, header);
    let b = plus_tree(a, "RENDITIONS"@, renditions, NODE_SIZE, key_size);
    let c = plus_tree(b, "FACETKEYS"@, facets, NODE_SIZE, widest_key(facets));
    let d = match appearances {
        Some(list) => plus_tree(c, "APPEARANCEKEYS"@, list, NODE_SIZE, widest_key(list)),
        None => c,
    };
    let e = plus_block(d, "KEYFORMAT"@, keyformat);
    let f = plus_block(e, "EXTENDED_METADATA"@, metadata);
    plus_raw_tree(f, "BITMAPKEYS"@, bitmaps, BITMAP_NODE_SIZE)
}

/// An archive as a file.
pub open spec fn archive_bytes(c: Contents) -> Seq<u8> {
    store_image(c.blocks, c.names)
}

/// The view of a list of pairs that may be missing.
pub open spec fn list_view(list: Option<&[(Vec<u8>, Vec<u8>)]>) -> Option<
    Seq<(Seq<u8>, Seq<u8>)>,
> {
    match list {
        Some(l) => Some(pair_contents(l@)),
        None => None,
    }
}

/// A tree whose leaves fit in memory.
pub open spec fn leaves_fit(entries: Seq<(Seq<u8>, Seq<u8>)>, key_size: nat) -> bool {
    NODE_SIZE + entries.len() * key_size <= usize::MAX
}

/// An archive that fits in memory.
pub open spec fn archive_fits(
    header: Seq<u8>,
    key_size: nat,
    renditions: Seq<(Seq<u8>, Seq<u8>)>,
    facets: Seq<(Seq<u8>, Seq<u8>)>,
    appearances: Option<Seq<(Seq<u8>, Seq<u8>)>>,
    keyformat: Seq<u8>,
    metadata: Seq<u8>,
    bitmaps: Seq<(u32, Seq<u8>)>,
) -> bool {
    let c = archive_contents(
        header,
        key_size,
        renditions,
        facets,
        appearances,
        keyformat,
        metadata,
        bitmaps,
    );
    &&& leaves_fit(renditions, key_size)
    &&& leaves_fit(facets, widest_key(facets))
    &&& appearances matches Some(list) ==> leaves_fit(list, widest_key(list))
    &&& block_bound(renditions.len(), facets.len(), list_len(appearances), bitmaps.len())
        <= usize::MAX
    &&& index_offset(c.blocks, c.names) <= isize::MAX
}

/// How many blocks the trees of an archive add at most.
pub open spec fn block_bound(
    renditions: nat,
    facets: nat,
    appearances: nat,
    bitmaps: nat,
) -> nat {
    4 * (renditions + facets + appearances) + 2 * bitmaps + 64
}

/// Whether the leaves of a tree fit in memory.
fn check_leaves(entries: usize, key_size: usize) -> (answer: bool)
    ensures
        answer == (NODE_SIZE + entries * key_size <= usize::MAX),
{
    proof {
        assert(entries * key_size <= 0xffff_ffff_ffff_ffff * 0xffff_ffff_ffff_ffff)
            by (nonlinear_arith)
            requires
                0 <= entries <= 0xffff_ffff_ffff_ffff,
                0 <= key_size <= 0xffff_ffff_ffff_ffff,
        ;
    }
    NODE_SIZE as u128 + entries as u128 * key_size as u128 <= usize::MAX as u128
}

/// The number of entries of a list that may be missing.
pub open spec fn list_len(list: Option<Seq<(Seq<u8>, Seq<u8>)>>) -> nat {
    match list {
        Some(l) => l.len(),
        None => 0,
    }
}

/// Puts the tables of a catalog into a store; `None` if the archive does not fit
/// in memory.
pub fn build_archive(
    header: Vec<u8>,
    key_size: usize,
    renditions: &[(Vec<u8>, Vec<u8>)],
    facets: &[(Vec<u8>, Vec<u8>)],
    appearances: Option<&[(Vec<u8>, Vec<u8>)]>,
    keyformat: Vec<u8>,
    metadata: Vec<u8>,
    bitmaps: &[(u32, Vec<u8>)],
) -> (out: Option<Vec<u8>>)
    ensures
        ({
            let fits = archive_fits(
                header@,
                key_size as nat,
                pair_contents(renditions@),
                pair_contents(facets@),
                list_view(appearances),
                keyformat@,
                metadata@,
                raw_contents(bitmaps@),
            );
            match out {
                Some(file) => fits && file@ == archive_bytes(
                    archive_contents(
                        header@,
                        key_size as nat,
                        pair_contents(renditions@),
                        pair_contents(facets@),
                        list_view(appearances),
                        keyformat@,
                        metadata@,
                        raw_contents(bitmaps@),
                    ),
                ),
                None => !fits,
            }
        }),
{
    let ghost rs = pair_contents(renditions@);
    let ghost fs = pair_contents(facets@);
    let ghost a = plus_block(no_contents(), "CARHEADER"@, header@);
    let ghost b = plus_tree(a, "RENDITIONS"@, rs, NODE_SIZE, key_size as nat);
    let ghost c = plus_tree(b, "FACETKEYS"@, fs, NODE_SIZE, widest_key(fs));
    let ghost d = match appearances {
        Some(list) => {
            let ls = pair_contents(list@);
            plus_tree(c, "APPEARANCEKEYS"@, ls, NODE_SIZE, widest_key(ls))
        },
        None => c,
    };
    let ghost e = plus_block(d, "KEYFORMAT"@, keyformat@);
    let ghost f = plus_block(e, "EXTENDED_METADATA"@, metadata@);
    let extra: usize = match appearances {
        Some(list) => list.len(),
        None => 0,
    };
    let blocks: u128 = 4 * (renditions.len() as u128 + facets.len() as u128 + extra as u128) + 2
        * bitmaps.len() as u128 + 64;
    if blocks > usize::MAX as u128 || !check_leaves(renditions.len(), key_size) || !check_leaves(
        facets.len(),
        find_widest_key(facets),
    ) {
        return None;
    }
    match appearances {
        Some(list) => {
            if !check_leaves(list.len(), find_widest_key(list)) {
                return None;
            }
        },
        None => {},
    }
    let mut bom = BomWriter::new();
    assert(bom.blocks() =~= no_contents().blocks && bom.names() =~= no_contents().names);
    let _ = bom.add_named_block("CARHEADER", header);
    assert(holds(bom, a));
    bom.set_inline_key_size(Some(key_size));
    add_tree(&mut bom, "RENDITIONS", renditions, Ghost(a), Ghost(key_size as nat));
    bom.set_inline_key_size(None);
    add_tree(&mut bom, "FACETKEYS", facets, Ghost(b), Ghost(widest_key(fs)));
    match appearances {
        Some(list) => {
            let ghost ls = pair_contents(list@);
            add_tree(&mut bom, "APPEARANCEKEYS", list, Ghost(c), Ghost(widest_key(ls)));
        },
        None => {},
    }
    assert(holds(bom, d));
    let _ = bom.add_named_block("KEYFORMAT", keyformat);
    assert(holds(bom, e));
    let _ = bom.add_named_block("EXTENDED_METADATA", metadata);
    assert(holds(bom, f));
    let _ = bom.add_raw_key_tree("BITMAPKEYS", bitmaps, BITMAP_NODE_SIZE);
    assert(holds(
        bom,
        plus_raw_tree(f, "BITMAPKEYS"@, raw_contents(bitmaps@), BITMAP_NODE_SIZE),
    ));
    bom.try_to_bytes()
}

/// Whether a store under construction holds `c`.
pub open spec fn holds(bom: BomWriter, c: Contents) -> bool {
    bom.wf() && bom.blocks() == c.blocks && bom.names() == c.names
}

/// Adds a tree to a store that holds `c`.
fn add_tree(
    bom: &mut BomWriter,
    name: &str,
    entries: &[(Vec<u8>, Vec<u8>)],
    Ghost(c): Ghost<Contents>,
    Ghost(key_size): Ghost<nat>,
)
    requires
        holds(*old(bom), c),
        key_size == old(bom).effective_key_size(pair_contents(entries@)),
        leaves_fit(pair_contents(entries@), key_size),
        c.blocks.len() + 4 * entries@.len() + 4 <= usize::MAX,
    ensures
        holds(*final(bom), plus_tree(c, name@, pair_contents(entries@), NODE_SIZE, key_size)),
        final(bom).key_size() == old(bom).key_size(),
        final(bom).blocks().len() <= c.blocks.len() + 4 * entries@.len() + 2,
{
    let ghost all = pair_contents(entries@);
    proof {
        lemma_tree_blocks_len(c.blocks.len(), all, NODE_SIZE, key_size);
    }
    let _ = bom.add_tree(name, entries, NODE_SIZE);
}

} // verus!
