//! Bitmap keys: for each identifier, which values its renditions have in each
//! column of their keys.  Lookups by name go through this table.

use vstd::prelude::*;

use crate::bytes::{le32, lemma_empty_prefix, pair_contents, put_le32, read_le16};
use crate::car::{ATTR_APPEARANCE, ATTR_ELEMENT, ATTR_IDENTIFIER, ATTR_PART};
use crate::order::first_keys;

verus! {

broadcast use lemma_empty_prefix;

/// Columns for which the table never narrows a lookup.
pub open spec fn is_wildcard(attr: u16) -> bool {
    attr == ATTR_ELEMENT || attr == ATTR_PART || attr == ATTR_APPEARANCE || attr == ATTR_IDENTIFIER
}

/// Where the first column `attr` stands; the number of columns if it is not there.
pub open spec fn column_at(format: Seq<u16>, attr: u16, from: int) -> int
    decreases format.len() - from,
{
    if from >= format.len() {
        format.len() as int
    } else if format[from] == attr {
        from
    } else {
        column_at(format, attr, from + 1)
    }
}

/// Whether a key has a column.
pub open spec fn has_column(key: Seq<u8>, i: int) -> bool {
    0 <= i < key.len() / 2
}

/// The value of a column of a key.
pub open spec fn key_column(key: Seq<u8>, i: int) -> nat {
    read_le16(key, 2 * i)
}

/// Whether a key is one of a rendition with an identifier, and has a column.
pub open spec fn key_counts(key: Seq<u8>, id_at: int, identifier: u16, i: int) -> bool {
    has_column(key, id_at) && key_column(key, id_at) == identifier && has_column(key, i)
}

/// The values below 32 that the first `n` keys with an identifier have in a
/// column, one bit for each.
pub open spec fn values_seen(
    keys: Seq<Seq<u8>>,
    n: nat,
    id_at: int,
    identifier: u16,
    i: int,
) -> u32
    decreases n,
{
    if n == 0 {
        0
    } else {
        let before = values_seen(keys, (n - 1) as nat, id_at, identifier, i);
        let key = keys[n - 1];
        if key_counts(key, id_at, identifier, i) && key_column(key, i) < 32 {
            before | (1u32 << (key_column(key, i) as u32))
        } else {
            before
        }
    }
}

/// The mask of a column: all bits for wildcard columns, else the values seen; the
/// value 0 if there are none.
pub open spec fn column_mask(
    keys: Seq<Seq<u8>>,
    format: Seq<u16>,
    identifier: u16,
    i: int,
) -> u32 {
    let id_at = column_at(format, ATTR_IDENTIFIER, 0);
    let seen = if id_at < format.len() {
        values_seen(keys, keys.len(), id_at, identifier, i)
    } else {
        0
    };
    if is_wildcard(format[i]) {
        0xffff_ffff
    } else if seen == 0 {
        1
    } else {
        seen
    }
}

/// The masks of the first `n` columns.
pub open spec fn column_masks(
    keys: Seq<Seq<u8>>,
    format: Seq<u16>,
    identifier: u16,
    n: nat,
) -> Seq<u8>
    decreases n,
{
    if n == 0 {
        Seq::empty()
    } else {
        column_masks(keys, format, identifier, (n - 1) as nat) + le32(
            column_mask(keys, format, identifier, n - 1),
        )
    }
}

/// The table entry of an identifier.
pub open spec fn bitmap_value(keys: Seq<Seq<u8>>, format: Seq<u16>, identifier: u16) -> Seq<u8> {
    le32(1) + le32(0) + le32((4 + 4 * format.len()) as u32) + le32(format.len() as u32)
        + column_masks(keys, format, identifier, format.len())
}

/// The bit of a value in the values seen is set exactly if one of the keys has
/// that value.
pub proof fn values_seen_tells_values(
    keys: Seq<Seq<u8>>,
    n: nat,
    id_at: int,
    identifier: u16,
    i: int,
    v: u32,
)
    requires
        n <= keys.len(),
        v < 32,
    ensures
        (values_seen(keys, n, id_at, identifier, i) >> v) & 1 == 1 <==> exists|k: int|
            0 <= k < n && key_counts(#[trigger] keys[k], id_at, identifier, i) && key_column(
                keys[k],
                i,
            ) == v,
    decreases n,
{
    if n == 0 {
        assert((0u32 >> v) & 1 == 0) by (bit_vector);
    } else {
        let m = (n - 1) as nat;
        values_seen_tells_values(keys, m, id_at, identifier, i, v);
        let before = values_seen(keys, m, id_at, identifier, i);
        let key = keys[n - 1];
        let w = key_column(key, i) as u32;
        if key_counts(key, id_at, identifier, i) && key_column(key, i) < 32 {
            assert(((before | (1u32 << w)) >> v) & 1 == 1 <==> (before >> v) & 1 == 1 || w == v)
                by (bit_vector)
                requires
                    w < 32,
                    v < 32,
            ;
        }
        if (before >> v) & 1 == 1 {
            let k = choose|k: int|
                0 <= k < m && key_counts(#[trigger] keys[k], id_at, identifier, i) && key_column(
                    keys[k],
                    i,
                ) == v;
            assert(0 <= k < n && key_counts(keys[k], id_at, identifier, i));
        }
    }
}

/// Where the first column `attr` stands.
pub fn find_column(format: &[u16], attr: u16) -> (at: usize)
    ensures
        at == column_at(format@, attr, 0),
        at <= format@.len(),
{
    let mut at: usize = 0;
    while at < format.len() && format[at] != attr
        invariant
            at <= format@.len(),
            column_at(format@, attr, 0) == column_at(format@, attr, at as int),
        decreases format.len() - at,
    {
        at = at + 1;
    }
    at
}

/// The value of a column of a key.
fn get_column(key: &Vec<u8>, i: usize) -> (value: u16)
    requires
        has_column(key@, i as int),
    ensures
        value == key_column(key@, i as int),
{
    let len: usize = key.len();
    key[2 * i] as u16 + 256 * key[2 * i + 1] as u16
}

/// The mask of a column.
fn make_mask(
    entries: &[(Vec<u8>, Vec<u8>)],
    format: &[u16],
    id_at: usize,
    identifier: u16,
    i: usize,
) -> (mask: u32)
    requires
        id_at == column_at(format@, ATTR_IDENTIFIER, 0),
        i < format@.len(),
    ensures
        mask == column_mask(
            first_keys(pair_contents(entries@)),
            format@,
            identifier,
            i as int,
        ),
{
    let ghost keys = first_keys(pair_contents(entries@));
    let attr: u16 = format[i];
    if attr == ATTR_ELEMENT || attr == ATTR_PART || attr == ATTR_APPEARANCE || attr
        == ATTR_IDENTIFIER {
        return 0xffff_ffff;
    }
    let mut seen: u32 = 0;
    if id_at < format.len() {
        let mut n: usize = 0;
        while n < entries.len()
            invariant
                n <= entries@.len(),
                keys == first_keys(pair_contents(entries@)),
                seen == values_seen(keys, n as nat, id_at as int, identifier, i as int),
            decreases entries.len() - n,
        {
            let key = &entries[n].0;
            assert(keys[n as int] == key@);
            let columns: usize = key.len() / 2;
            if id_at < columns && i < columns && get_column(key, id_at) == identifier {
                let value: u16 = get_column(key, i);
                if value < 32 {
                    seen = seen | (1u32 << (value as u32));
                }
            }
            n = n + 1;
        }
    }
    if seen == 0 {
        1
    } else {
        seen
    }
}

/// The table entry of an identifier.
pub fn make_bitmap_value(
    entries: &[(Vec<u8>, Vec<u8>)],
    format: &[u16],
    identifier: u16,
) -> (value: Vec<u8>)
    requires
        4 + 4 * format@.len() <= u32::MAX,
    ensures
        value@ == bitmap_value(first_keys(pair_contents(entries@)), format@, identifier),
{
    let ghost keys = first_keys(pair_contents(entries@));
    let id_at = find_column(format, ATTR_IDENTIFIER);
    let columns: u32 = format.len() as u32;
    let mut value: Vec<u8> = Vec::new();
    put_le32(&mut value, 1);
    put_le32(&mut value, 0);
    put_le32(&mut value, 4 + 4 * columns);
    put_le32(&mut value, columns);
    let ghost head = value@;
    let mut i: usize = 0;
    assert(value@ =~= head + column_masks(keys, format@, identifier, 0));
    while i < format.len()
        invariant
            i <= format@.len(),
            keys == first_keys(pair_contents(entries@)),
            id_at == column_at(format@, ATTR_IDENTIFIER, 0),
            value@ == head + column_masks(keys, format@, identifier, i as nat),
        decreases format.len() - i,
    {
        put_le32(&mut value, make_mask(entries, format, id_at, identifier, i));
        i = i + 1;
        assert(value@ =~= head + column_masks(keys, format@, identifier, i as nat));
    }
    value
}

} // verus!
