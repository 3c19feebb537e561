use actool::bom::BomWriter;

fn be32(data: &[u8], at: usize) -> usize {
    u32::from_be_bytes([data[at], data[at + 1], data[at + 2], data[at + 3]]) as usize
}

/// Block `id` of a store, read through the index.
fn block(file: &[u8], id: usize) -> &[u8] {
    let index = be32(file, 16);
    let at = be32(file, index + 4 + 8 * id);
    let len = be32(file, index + 8 + 8 * id);
    &file[at..at + len]
}

#[test]
fn empty_bom() {
    let bom = BomWriter::new();
    let data = bom.to_bytes();
    assert_eq!(&data[..8], b"BOMStore");
    assert_eq!(be32(&data, 8), 1);
    assert_eq!(be32(&data, 12), 1);
}

#[test]
fn single_named_block() {
    let mut bom = BomWriter::new();
    let idx = bom.add_named_block("HELLO", b"world data".to_vec());
    assert_eq!(idx, 1);
    let data = bom.to_bytes();
    assert_eq!(&data[..8], b"BOMStore");
    assert!(data.windows(10).any(|w| w == b"world data"));
}

#[test]
fn tree_single_leaf() {
    let mut bom = BomWriter::new();
    let entries = vec![(b"key1".to_vec(), b"val1".to_vec())];
    bom.add_tree("TREE", &entries, 4096);
    let data = bom.to_bytes();
    assert!(data.windows(4).any(|w| w == b"tree"));
    assert!(data.windows(4).any(|w| w == b"key1"));
    assert!(data.windows(4).any(|w| w == b"val1"));
}

#[test]
fn raw_key_tree() {
    let mut bom = BomWriter::new();
    let entries: Vec<(u32, Vec<u8>)> = vec![(1, b"aaaa".to_vec()), (2, b"bbbb".to_vec())];
    bom.add_raw_key_tree("TBL", &entries, 1024);
    let data = bom.to_bytes();
    assert!(data.windows(4).any(|w| w == b"aaaa"));
    assert!(data.windows(4).any(|w| w == b"bbbb"));
}

#[test]
fn named_block_ordering_preserved() {
    let mut bom = BomWriter::new();
    bom.add_named_block("FIRST", b"AAAA".to_vec());
    bom.add_named_block("SECOND", b"BBBB".to_vec());
    bom.add_named_block("THIRD", b"CCCC".to_vec());
    let data = bom.to_bytes();
    let first = data.windows(5).position(|w| w == b"FIRST").expect("FIRST not found");
    let second = data.windows(6).position(|w| w == b"SECOND").expect("SECOND not found");
    let third = data.windows(5).position(|w| w == b"THIRD").expect("THIRD not found");
    assert!(first < second);
    assert!(second < third);
}

#[test]
fn blocks_read_back_through_the_index() {
    let mut bom = BomWriter::new();
    let a = bom.add_named_block("A", vec![7; 33]);
    let b = bom.add_block(vec![]);
    let c = bom.add_block(b"last".to_vec());
    assert_eq!((a, b, c), (1, 2, 3));
    let file = bom.to_bytes();
    assert_eq!(block(&file, a), &vec![7u8; 33][..]);
    assert_eq!(block(&file, b), b"");
    assert_eq!(block(&file, c), b"last");
    let index = be32(&file, 16);
    assert_eq!(be32(&file, index + 4 + 8 * a) % 16, 0);
    assert_eq!(be32(&file, index + 4 + 8 * c) % 16, 0);
}

#[test]
fn repeated_name_leads_to_its_last_block() {
    let mut bom = BomWriter::new();
    bom.add_named_block("X", b"old".to_vec());
    let last = bom.add_named_block("X", b"new".to_vec());
    let file = bom.to_bytes();
    let vars = be32(&file, 24);
    assert_eq!(be32(&file, vars), 1);
    assert_eq!(be32(&file, vars + 4), last);
    assert_eq!(block(&file, last), b"new");
}

#[test]
fn deep_tree_holds_every_entry() {
    let mut entries: Vec<(Vec<u8>, Vec<u8>)> = Vec::new();
    for i in 0..1200u32 {
        entries.push((i.to_be_bytes().to_vec(), format!("value {i}").into_bytes()));
    }
    let mut bom = BomWriter::new();
    let header = bom.add_tree("BIG", &entries, 4096);
    let file = bom.to_bytes();
    let tree = block(&file, header);
    assert_eq!(&tree[..4], b"tree");
    assert_eq!(be32(tree, 16), 1200);
    // The root is a branch; its first child is the leftmost leaf.
    let root = block(&file, be32(tree, 8));
    assert_eq!(&root[..2], &[0, 0]);
    let mut leaf = be32(root, 12);
    let mut seen: Vec<(Vec<u8>, Vec<u8>)> = Vec::new();
    while leaf != 0 {
        let node = block(&file, leaf);
        assert_eq!(&node[..2], &[0, 1]);
        let n = u16::from_be_bytes([node[2], node[3]]) as usize;
        for row in 0..n {
            let value = block(&file, be32(node, 12 + 8 * row));
            let key = block(&file, be32(node, 16 + 8 * row));
            seen.push((key.to_vec(), value.to_vec()));
        }
        leaf = be32(node, 4);
    }
    assert_eq!(seen, entries);
}

#[test]
fn deep_raw_tree_holds_every_entry() {
    let mut entries: Vec<(u32, Vec<u8>)> = Vec::new();
    for i in 0..300u32 {
        entries.push((3 * i + 1, vec![i as u8; 5]));
    }
    let mut bom = BomWriter::new();
    let header = bom.add_raw_key_tree("RAW", &entries, 1024);
    let file = bom.to_bytes();
    let tree = block(&file, header);
    assert_eq!(be32(tree, 16), 300);
    let root = block(&file, be32(tree, 8));
    let mut leaf = be32(root, 12);
    let mut seen: Vec<(u32, Vec<u8>)> = Vec::new();
    while leaf != 0 {
        let node = block(&file, leaf);
        let n = u16::from_be_bytes([node[2], node[3]]) as usize;
        for row in 0..n {
            let value = block(&file, be32(node, 12 + 8 * row));
            seen.push((be32(node, 16 + 8 * row) as u32, value.to_vec()));
        }
        leaf = be32(node, 4);
    }
    assert_eq!(seen, entries);
}

#[test]
fn empty_trees_have_an_empty_leaf() {
    let mut bom = BomWriter::new();
    let a = bom.add_tree("NONE", &[], 4096);
    let b = bom.add_raw_key_tree("RAWNONE", &[], 1024);
    let file = bom.to_bytes();
    for (id, size) in [(a, 4096), (b, 1024)] {
        let tree = block(&file, id);
        assert_eq!(be32(tree, 12), size);
        assert_eq!(be32(tree, 16), 0);
        assert_eq!(block(&file, be32(tree, 8)).len(), size);
    }
}

#[test]
fn inline_keys_widen_leaves() {
    let entries = vec![(vec![1u8, 2, 3, 4], vec![9u8])];
    let mut bom = BomWriter::new();
    bom.set_inline_key_size(Some(4));
    let id = bom.add_tree("T", &entries, 64);
    let file = bom.try_to_bytes().unwrap();
    let tree = block(&file, id);
    assert_eq!(be32(tree, 21), 4);
    let leaf = block(&file, be32(tree, 8));
    assert_eq!(leaf.len(), 68);
    assert_eq!(&leaf[24..28], &[1, 2, 3, 4]);
}

/// The entries of the leaves of a tree, from the block of its first leaf on.
fn leaf_rows(file: &[u8], first: usize) -> Vec<(usize, usize)> {
    let mut rows = Vec::new();
    let mut at = first;
    let mut before = 0;
    while at != 0 {
        let leaf = block(file, at);
        assert_eq!(&leaf[..2], &[0, 1]);
        assert_eq!(be32(leaf, 8), before);
        let n = u16::from_be_bytes([leaf[2], leaf[3]]) as usize;
        for row in 0..n {
            rows.push((be32(leaf, 12 + 8 * row), be32(leaf, 16 + 8 * row)));
        }
        before = at;
        at = be32(leaf, 4);
    }
    rows
}

#[test]
fn leaves_give_the_entries_in_order() {
    for n in [0usize, 1, 3, 4, 10] {
        let mut bom = BomWriter::new();
        let entries: Vec<(Vec<u8>, Vec<u8>)> =
            (0..n).map(|i| (vec![b'k', i as u8], vec![b'v', i as u8, 0])).collect();
        bom.add_tree("TREE", &entries, 36);
        let file = bom.to_bytes();
        let first = if n <= 3 { 1 + 2 * n } else { 1 };
        let found: Vec<(Vec<u8>, Vec<u8>)> = leaf_rows(&file, first)
            .into_iter()
            .map(|(v, k)| (block(&file, k).to_vec(), block(&file, v).to_vec()))
            .collect();
        assert_eq!(found, entries);
    }
}

#[test]
fn raw_leaves_give_the_entries_in_order() {
    for n in [0usize, 1, 3, 4, 10] {
        let mut bom = BomWriter::new();
        let entries: Vec<(u32, Vec<u8>)> =
            (0..n).map(|i| (7 * i as u32, vec![b'v', i as u8, 0])).collect();
        bom.add_raw_key_tree("TREE", &entries, 36);
        let file = bom.to_bytes();
        let first = if n <= 3 { 1 + n } else { 1 };
        let found: Vec<(u32, Vec<u8>)> = leaf_rows(&file, first)
            .into_iter()
            .map(|(v, k)| (k as u32, block(&file, v).to_vec()))
            .collect();
        assert_eq!(found, entries);
    }
}

/// The names of a store, each with its block.
fn names(file: &[u8]) -> Vec<(String, usize)> {
    let mut at = be32(file, 24) + 4;
    let mut names = Vec::new();
    for _ in 0..be32(file, at - 4) {
        let len = file[at + 4] as usize;
        let name = String::from_utf8(file[at + 5..at + 5 + len].to_vec()).unwrap();
        names.push((name, be32(file, at)));
        at += 5 + len;
    }
    names
}

#[test]
fn stores_read_back_from_their_files() {
    let mut bom = BomWriter::new();
    bom.add_named_block("ONE", b"first".to_vec());
    bom.add_block(b"no name".to_vec());
    bom.add_named_block("TWO", vec![7; 40]);
    bom.add_named_block("ONE", b"again".to_vec());
    bom.add_named_block("\u{fc}", Vec::new());
    let file = bom.to_bytes();
    assert_eq!(&file[..8], b"BOMStore");
    assert_eq!(be32(&file, 8), 1);
    assert_eq!(be32(&file, 12), 6);
    let blocks: Vec<&[u8]> = (0..6).map(|i| block(&file, i)).collect();
    assert_eq!(blocks, vec![&b""[..], b"first", b"no name", &[7; 40], b"again", b""]);
    let index = be32(&file, 16);
    assert!((1..6).all(|i| be32(&file, index + 4 + 8 * i) % 16 == 0));
    assert_eq!(
        names(&file),
        vec![("ONE".to_string(), 4), ("TWO".to_string(), 3), ("\u{fc}".to_string(), 5)]
    );
}

#[test]
fn trees_read_back_from_their_names() {
    for n in [0usize, 2, 3, 4, 11] {
        let mut bom = BomWriter::new();
        bom.add_named_block("BEFORE", b"kept".to_vec());
        let entries: Vec<(Vec<u8>, Vec<u8>)> =
            (0..n).map(|i| (vec![b'k', i as u8], vec![b'v', i as u8, 0])).collect();
        let id = bom.add_tree("TREE", &entries, 36);
        bom.add_block(b"behind".to_vec());
        let file = bom.to_bytes();
        assert_eq!(names(&file), vec![("BEFORE".to_string(), 1), ("TREE".to_string(), id)]);
        assert_eq!(block(&file, 1), b"kept");
        let header = block(&file, id);
        assert_eq!(&header[..4], b"tree");
        assert_eq!(be32(header, 4), 1);
        assert_eq!(be32(header, 12), 36);
        assert_eq!(be32(header, 16), n);
        let root = be32(header, 8);
        let first = match block(&file, root)[..2] {
            [0, 1] => root,
            _ => be32(block(&file, root), 12),
        };
        let mut at = first;
        while at != 0 {
            let leaf = block(&file, at);
            assert!(u16::from_be_bytes([leaf[2], leaf[3]]) <= 3);
            at = be32(leaf, 4);
        }
        let found: Vec<(Vec<u8>, Vec<u8>)> = leaf_rows(&file, first)
            .into_iter()
            .map(|(v, k)| (block(&file, k).to_vec(), block(&file, v).to_vec()))
            .collect();
        assert_eq!(found, entries);
    }
}
