//! Which renditions share an atlas.
//!
//! Small images of the same pixel format, scale, sprite atlas and idiom are
//! packed together, as soon as a group holds images of two facets.  App icons never
//! share a group with other images; on platforms with idioms, where they are all of
//! one facet, they are packed as soon as a group holds two sizes.  All other
//! renditions are stored on their own.

use vstd::prelude::*;

use crate::car::{LAYOUT_COLOR, LAYOUT_METADATA, LAYOUT_MULTISIZE_IMAGE, LAYOUT_RAW_DATA, PART_ICON};
use crate::index::{
    key_at, keys_differ, new_number_index, number_entries, number_index_get, number_index_insert,
};
use crate::order::{arrange, arranged, stable_order};
use crate::rendition::Rendition;

verus! {

/// Icons from this width on are stored on their own.
pub const ICON_INLINE_THRESHOLD: u32 = 256;

/// The greatest width of an atlas.
pub const PACK_MAX_WIDTH: u32 = 262;

/// The greatest height of an atlas.
pub const PACK_MAX_HEIGHT: u32 = 196;

/// Both margins of an atlas.
pub const PACK_MARGIN: u32 = 4;

/// Whether a rendition is stored on its own, whatever else there is: it is no
/// image, its stored form is given, it is made for a special display, or it is
/// too large.
pub open spec fn stays_inline(r: Rendition) -> bool {
    ||| r.layout == LAYOUT_MULTISIZE_IMAGE
    ||| r.layout == LAYOUT_COLOR
    ||| r.layout == LAYOUT_RAW_DATA
    ||| r.layout == LAYOUT_METADATA
    ||| r.part == PART_ICON && r.width >= ICON_INLINE_THRESHOLD
    ||| r.subtype != 0
    ||| r.csi_override is Some
    ||| r.width >= PACK_MAX_WIDTH - PACK_MARGIN
    ||| r.height >= PACK_MAX_HEIGHT - PACK_MARGIN
}

/// Whether a rendition is an app icon, as a number.
pub open spec fn icon_bit(r: Rendition) -> int {
    if r.part == PART_ICON {
        1
    } else {
        0
    }
}

/// Pixel format, scale, sprite atlas, idiom and whether it is an app icon as one
/// number, which orders groups by these five in turn.
pub open spec fn group_key(r: Rendition) -> u128 {
    (((((((r.pixel_format@[0] * 256 + r.pixel_format@[1]) * 256 + r.pixel_format@[2]) * 256
        + r.pixel_format@[3]) * 65536 + r.scale) * 65536 + r.sprite_atlas_id) * 65536 + r.idiom) * 2
        + icon_bit(r)) as u128
}

/// The renditions among the first `n` that stay inline.
pub open spec fn inline_members(rs: Seq<Rendition>, n: nat) -> Seq<usize>
    decreases n,
{
    if n == 0 {
        Seq::empty()
    } else if stays_inline(rs[n - 1]) {
        inline_members(rs, (n - 1) as nat).push((n - 1) as usize)
    } else {
        inline_members(rs, (n - 1) as nat)
    }
}

/// The renditions among the first `n` that belong to the group `key`.
pub open spec fn group_members(rs: Seq<Rendition>, key: u128, n: nat) -> Seq<usize>
    decreases n,
{
    if n == 0 {
        Seq::empty()
    } else if !stays_inline(rs[n - 1]) && group_key(rs[n - 1]) == key {
        group_members(rs, key, (n - 1) as nat).push((n - 1) as usize)
    } else {
        group_members(rs, key, (n - 1) as nat)
    }
}

/// Whether a group has members of two facets.
pub open spec fn two_facets(rs: Seq<Rendition>, members: Seq<usize>) -> bool {
    exists|i: int, j: int|
        0 <= i < members.len() && 0 <= j < members.len() && rs[#[trigger] members[i] as int].identifier
            != rs[#[trigger] members[j] as int].identifier
}

/// Whether a member is an icon of a platform with idioms.
pub open spec fn idiom_icon(r: Rendition) -> bool {
    r.part == PART_ICON && r.idiom != 0
}

/// Whether a group has icons of two sizes.
pub open spec fn two_icon_sizes(rs: Seq<Rendition>, members: Seq<usize>) -> bool {
    exists|i: int, j: int|
        0 <= i < members.len() && 0 <= j < members.len() && idiom_icon(
            rs[#[trigger] members[i] as int],
        ) && idiom_icon(rs[#[trigger] members[j] as int]) && rs[members[i] as int].dim2
            != rs[members[j] as int].dim2
}

/// Whether a group is packed.
pub open spec fn is_packed(rs: Seq<Rendition>, members: Seq<usize>) -> bool {
    two_facets(rs, members) || two_icon_sizes(rs, members)
}

/// Whether `keys` are the groups that there are, in ascending order.
pub open spec fn are_group_keys(rs: Seq<Rendition>, keys: Seq<u128>) -> bool {
    &&& forall|i: int, j: int|
        0 <= i < j < keys.len() ==> #[trigger] keys[i] < #[trigger] keys[j]
    &&& forall|k: int|
        0 <= k < rs.len() && !stays_inline(#[trigger] rs[k]) ==> keys.contains(group_key(rs[k]))
    &&& forall|i: int|
        0 <= i < keys.len() ==> group_members(rs, #[trigger] keys[i], rs.len()).len() > 0
}

/// The groups among `keys` that are packed.
pub open spec fn packed_groups(rs: Seq<Rendition>, keys: Seq<u128>) -> Seq<Seq<usize>>
    decreases keys.len(),
{
    if keys.len() == 0 {
        Seq::empty()
    } else {
        let members = group_members(rs, keys.last(), rs.len());
        let before = packed_groups(rs, keys.drop_last());
        if is_packed(rs, members) {
            before.push(members)
        } else {
            before
        }
    }
}

/// The members of the groups among `keys` that are not packed.
pub open spec fn unpacked_members(rs: Seq<Rendition>, keys: Seq<u128>) -> Seq<usize>
    decreases keys.len(),
{
    if keys.len() == 0 {
        Seq::empty()
    } else {
        let members = group_members(rs, keys.last(), rs.len());
        let before = unpacked_members(rs, keys.drop_last());
        if is_packed(rs, members) {
            before
        } else {
            before + members
        }
    }
}

/// The contents of a list of groups.
pub open spec fn group_contents(groups: Seq<PackGroup>) -> Seq<Seq<usize>> {
    Seq::new(groups.len(), |i: int| groups[i].members@)
}

/// Renditions that share atlases: their pixel format, scale, sprite atlas and
/// idiom, whether they are app icons, and where they stand.
pub struct PackGroup {
    pub pixel_format: [u8; 4],
    pub scale: u16,
    pub sprite_atlas_id: u16,
    pub idiom: u16,
    pub of_icons: bool,
    pub members: Vec<usize>,
}

/// A group names what all its members have.
pub open spec fn group_ok(rs: Seq<Rendition>, group: PackGroup) -> bool {
    &&& group.members@.len() > 0
    &&& forall|i: int|
        0 <= i < group.members@.len() ==> {
            let m = #[trigger] group.members@[i];
            &&& m < rs.len()
            &&& !stays_inline(rs[m as int])
            &&& rs[m as int].pixel_format@ == group.pixel_format@
            &&& rs[m as int].scale == group.scale
            &&& rs[m as int].sprite_atlas_id == group.sprite_atlas_id
            &&& rs[m as int].idiom == group.idiom
            &&& (rs[m as int].part == PART_ICON) == group.of_icons
        }
}

/// Whether two renditions agree in all that members of a group have in common.
pub open spec fn alike(a: Rendition, b: Rendition) -> bool {
    &&& a.pixel_format@ == b.pixel_format@
    &&& a.scale == b.scale
    &&& a.sprite_atlas_id == b.sprite_atlas_id
    &&& a.idiom == b.idiom
    &&& (a.part == PART_ICON) == (b.part == PART_ICON)
}

/// The members of a group are renditions with its key.
pub proof fn lemma_group_members(rs: Seq<Rendition>, key: u128, n: nat)
    requires
        n <= rs.len(),
        rs.len() <= usize::MAX,
    ensures
        forall|i: int|
            0 <= i < group_members(rs, key, n).len() ==> {
                let m = #[trigger] group_members(rs, key, n)[i];
                m < n && !stays_inline(rs[m as int]) && group_key(rs[m as int]) == key
            },
    decreases n,
{
    if n > 0 {
        lemma_group_members(rs, key, (n - 1) as nat);
        let before = group_members(rs, key, (n - 1) as nat);
        assert forall|i: int| 0 <= i < group_members(rs, key, n).len() implies {
            let m = #[trigger] group_members(rs, key, n)[i];
            m < n && !stays_inline(rs[m as int]) && group_key(rs[m as int]) == key
        } by {
            if i < before.len() {
                assert(group_members(rs, key, n)[i] == before[i]);
            }
        }
    }
}

/// A group that no rendition belongs to has no members.
proof fn lemma_no_members(rs: Seq<Rendition>, key: u128, n: nat)
    requires
        n <= rs.len(),
        forall|k: int|
            0 <= k < n && !stays_inline(#[trigger] rs[k]) ==> group_key(rs[k]) != key,
    ensures
        group_members(rs, key, n).len() == 0,
    decreases n,
{
    if n > 0 {
        lemma_no_members(rs, key, (n - 1) as nat);
    }
}

/// Renditions with the same key have the same format, scale, sprite atlas and
/// idiom, and are both app icons or neither is.
proof fn lemma_group_key_is_injective(a: Rendition, b: Rendition)
    requires
        group_key(a) == group_key(b),
    ensures
        a.pixel_format@ == b.pixel_format@,
        a.scale == b.scale,
        a.sprite_atlas_id == b.sprite_atlas_id,
        a.idiom == b.idiom,
        (a.part == PART_ICON) == (b.part == PART_ICON),
{
    let x = a.pixel_format@;
    let y = b.pixel_format@;
    let x2 = x[0] * 256 + x[1];
    let y2 = y[0] * 256 + y[1];
    let x3 = x2 * 256 + x[2];
    let y3 = y2 * 256 + y[2];
    let x4 = x3 * 256 + x[3];
    let y4 = y3 * 256 + y[3];
    let x5 = x4 * 65536 + a.scale;
    let y5 = y4 * 65536 + b.scale;
    let x6 = x5 * 65536 + a.sprite_atlas_id;
    let y6 = y5 * 65536 + b.sprite_atlas_id;
    let x7 = x6 * 65536 + a.idiom;
    let y7 = y6 * 65536 + b.idiom;
    assert(x7 * 2 + icon_bit(a) == y7 * 2 + icon_bit(b));
    lemma_same_digit(x7, icon_bit(a), y7, icon_bit(b), 2);
    lemma_same_digit(x6, a.idiom as int, y6, b.idiom as int, 65536);
    lemma_same_digit(x5, a.sprite_atlas_id as int, y5, b.sprite_atlas_id as int, 65536);
    lemma_same_digit(x4, a.scale as int, y4, b.scale as int, 65536);
    lemma_same_digit(x3, x[3] as int, y3, y[3] as int, 256);
    lemma_same_digit(x2, x[2] as int, y2, y[2] as int, 256);
    lemma_same_digit(x[0] as int, x[1] as int, y[0] as int, y[1] as int, 256);
    assert(x =~= y);
}

/// Numbers in a base are the same in their last digit and in the others.
proof fn lemma_same_digit(a: int, b: int, c: int, d: int, base: int)
    requires
        0 <= b < base,
        0 <= d < base,
        a * base + b == c * base + d,
    ensures
        a == c,
        b == d,
{
    if a < c {
        assert((a + 1) * base <= c * base && (a + 1) * base == a * base + base)
            by (nonlinear_arith)
            requires
                a + 1 <= c,
                base > 0,
        ;
    }
    if c < a {
        assert((c + 1) * base <= a * base && (c + 1) * base == c * base + base)
            by (nonlinear_arith)
            requires
                c + 1 <= a,
                base > 0,
        ;
    }
}

/// Whether a rendition is stored on its own.
fn check_inline(r: &Rendition) -> (answer: bool)
    ensures
        answer == stays_inline(*r),
{
    r.layout == LAYOUT_MULTISIZE_IMAGE || r.layout == LAYOUT_COLOR || r.layout == LAYOUT_RAW_DATA
        || r.layout == LAYOUT_METADATA || (r.part == PART_ICON && r.width >= ICON_INLINE_THRESHOLD)
        || r.subtype != 0 || r.csi_override.is_some() || r.width >= PACK_MAX_WIDTH - PACK_MARGIN
        || r.height >= PACK_MAX_HEIGHT - PACK_MARGIN
}

/// The group of a rendition.
fn key_of(r: &Rendition) -> (key: u128)
    ensures
        key == group_key(*r),
{
    let f = &r.pixel_format;
    let icon: u128 = if r.part == PART_ICON {
        1
    } else {
        0
    };
    ((((((f[0] as u128 * 256 + f[1] as u128) * 256 + f[2] as u128) * 256 + f[3] as u128) * 65536
        + r.scale as u128) * 65536 + r.sprite_atlas_id as u128) * 65536 + r.idiom as u128) * 2
        + icon
}

/// Whether a group is packed.
fn check_packed(rs: &[Rendition], members: &Vec<usize>) -> (answer: bool)
    requires
        forall|i: int| 0 <= i < members@.len() ==> (#[trigger] members@[i]) < rs@.len(),
    ensures
        answer == is_packed(rs@, members@),
{
    let mut icon: Option<usize> = None;
    let mut i: usize = 0;
    while i < members.len()
        invariant
            i <= members@.len(),
            forall|i: int| 0 <= i < members@.len() ==> (#[trigger] members@[i]) < rs@.len(),
            forall|j: int|
                0 <= j < i ==> rs@[#[trigger] members@[j] as int].identifier
                    == rs@[members@[0] as int].identifier,
            match icon {
                None => forall|j: int| 0 <= j < i ==> !idiom_icon(rs@[#[trigger] members@[j] as int]),
                Some(k) => k < i && idiom_icon(rs@[members@[k as int] as int]) && forall|j: int|
                    0 <= j < i && idiom_icon(rs@[#[trigger] members@[j] as int])
                        ==> rs@[members@[j] as int].dim2 == rs@[members@[k as int] as int].dim2,
            },
        decreases members.len() - i,
    {
        let r = &rs[members[i]];
        if r.identifier != rs[members[0]].identifier {
            assert(rs@[members@[i as int] as int].identifier != rs@[members@[0] as int].identifier);
            return true;
        }
        if r.part == PART_ICON && r.idiom != 0 {
            match icon {
                None => {
                    icon = Some(i);
                },
                Some(k) => {
                    if r.dim2 != rs[members[k]].dim2 {
                        assert(idiom_icon(rs@[members@[i as int] as int]));
                        assert(two_icon_sizes(rs@, members@));
                        return true;
                    }
                },
            }
        }
        i = i + 1;
    }
    false
}

/// Renditions by group: the key of each group and its members, in the order in
/// which the groups first came; and the renditions that stay inline.
pub open spec fn buckets_ok(
    rs: Seq<Rendition>,
    n: nat,
    keys: Seq<u128>,
    buckets: Seq<Vec<usize>>,
    entries: Seq<(u128, usize)>,
) -> bool {
    &&& keys.len() == buckets.len() == entries.len()
    &&& forall|e: int| 0 <= e < keys.len() ==> #[trigger] entries[e] == (keys[e], e as usize)
    &&& forall|e: int|
        0 <= e < keys.len() ==> (#[trigger] buckets[e])@ == group_members(rs, keys[e], n)
    &&& forall|e: int| 0 <= e < keys.len() ==> (#[trigger] buckets[e])@.len() > 0
    &&& forall|k: int|
        0 <= k < n && !stays_inline(#[trigger] rs[k]) ==> keys.contains(group_key(rs[k]))
    &&& forall|i: int, j: int|
        0 <= i < j < keys.len() ==> #[trigger] keys[i] != #[trigger] keys[j]
}

/// Sorts renditions into groups.
fn fill_buckets(renditions: &[Rendition]) -> (filled: (Vec<u128>, Vec<Vec<usize>>, Vec<usize>))
    ensures
        filled.0@.len() == filled.1@.len(),
        forall|e: int|
            0 <= e < filled.0@.len() ==> (#[trigger] filled.1@[e])@ == group_members(
                renditions@,
                filled.0@[e],
                renditions@.len(),
            ),
        forall|e: int| 0 <= e < filled.0@.len() ==> (#[trigger] filled.1@[e])@.len() > 0,
        forall|k: int|
            0 <= k < renditions@.len() && !stays_inline(#[trigger] renditions@[k])
                ==> filled.0@.contains(group_key(renditions@[k])),
        forall|i: int, j: int|
            0 <= i < j < filled.0@.len() ==> #[trigger] filled.0@[i] != #[trigger] filled.0@[j],
        filled.2@ == inline_members(renditions@, renditions@.len()),
{
    let ghost rs = renditions@;
    let mut index = new_number_index();
    let mut keys: Vec<u128> = Vec::new();
    let mut buckets: Vec<Vec<usize>> = Vec::new();
    let mut inline: Vec<usize> = Vec::new();
    let mut i: usize = 0;
    while i < renditions.len()
        invariant
            i <= rs.len(),
            rs == renditions@,
            keys_differ(number_entries(index)),
            buckets_ok(rs, i as nat, keys@, buckets@, number_entries(index)),
            inline@ == inline_members(rs, i as nat),
        decreases renditions.len() - i,
    {
        let ghost entries = number_entries(index);
        let ghost old_keys = keys@;
        let ghost old_buckets = buckets@;
        let r = &renditions[i];
        if check_inline(r) {
            inline.push(i);
            assert forall|e: int| 0 <= e < keys@.len() implies (#[trigger] buckets@[e])@
                == group_members(rs, keys@[e], i as nat + 1) by {}
        } else {
            let key = key_of(r);
            let count: usize = keys.len();
            match number_index_get(&index, key) {
                Some(at) => {
                    proof {
                        let e = key_at(entries, key);
                        assert(entries[e] == (keys@[e], e as usize));
                        assert(0 <= e < count);
                        assert(at == e && keys@[at as int] == key);
                    }
                    let mut bucket: Vec<usize> = Vec::new();
                    core::mem::swap(&mut bucket, &mut buckets[at]);
                    bucket.push(i);
                    core::mem::swap(&mut bucket, &mut buckets[at]);
                    proof {
                        assert(buckets@[at as int]@ == old_buckets[at as int]@.push(i));
                        assert forall|e: int| 0 <= e < keys@.len() implies (
                        #[trigger] buckets@[e])@ == group_members(rs, keys@[e], i as nat + 1) by {
                            if e != at {
                                assert(buckets@[e] == old_buckets[e]);
                                assert(keys@[e] != key);
                            }
                        }
                        assert(keys@.contains(key));
                    }
                },
                None => {
                    proof {
                        assert forall|e: int| 0 <= e < keys@.len() implies #[trigger] keys@[e]
                            != key by {
                            assert(entries[e].0 == keys@[e]);
                        }
                        assert forall|k: int| 0 <= k < i && !stays_inline(
                            #[trigger] rs[k],
                        ) implies group_key(rs[k]) != key by {
                            assert(keys@.contains(group_key(rs[k])));
                        }
                        lemma_no_members(rs, key, i as nat);
                    }
                    number_index_insert(&mut index, key, keys.len());
                    keys.push(key);
                    let mut bucket: Vec<usize> = Vec::new();
                    bucket.push(i);
                    buckets.push(bucket);
                    proof {
                        assert(bucket@ =~= group_members(rs, key, i as nat + 1));
                        assert forall|e: int| 0 <= e < keys@.len() implies (
                        #[trigger] buckets@[e])@ == group_members(rs, keys@[e], i as nat + 1) by {
                            if e < old_keys.len() {
                                assert(buckets@[e] == old_buckets[e]);
                                assert(keys@[e] == old_keys[e]);
                            }
                        }
                        assert forall|k: int| 0 <= k < i + 1 && !stays_inline(
                            #[trigger] rs[k],
                        ) implies keys@.contains(group_key(rs[k])) by {
                            if k < i {
                                let e = choose|e: int|
                                    0 <= e < old_keys.len() && old_keys[e] == group_key(rs[k]);
                                assert(keys@[e] == group_key(rs[k]));
                            } else {
                                assert(keys@[old_keys.len() as int] == key);
                            }
                        }
                    }
                },
            }
        }
        i = i + 1;
    }
    (keys, buckets, inline)
}

/// Splits renditions into groups that share atlases, and those that are stored
/// on their own.
pub fn group_for_packing(renditions: &[Rendition]) -> (split: (Vec<PackGroup>, Vec<usize>))
    ensures
        exists|keys: Seq<u128>|
            {
                &&& #[trigger] are_group_keys(renditions@, keys)
                &&& group_contents(split.0@) == packed_groups(renditions@, keys)
                &&& split.1@ == inline_members(renditions@, renditions@.len()) + unpacked_members(
                    renditions@,
                    keys,
                )
            },
        forall|g: int| 0 <= g < split.0@.len() ==> group_ok(renditions@, #[trigger] split.0@[g]),
        forall|g: int, i: int, j: int|
            0 <= g < split.0@.len() && 0 <= i < split.0@[g].members@.len() && 0 <= j
                < split.0@[g].members@.len() ==> alike(
                renditions@[#[trigger] split.0@[g].members@[i] as int],
                renditions@[#[trigger] split.0@[g].members@[j] as int],
            ),
{
    let ghost rs = renditions@;
    let n: usize = renditions.len();
    let (keys, buckets, inline_first) = fill_buckets(renditions);
    let order = stable_order(&keys);
    let ghost sorted = arranged(keys@, order@);
    let ghost all = arranged(buckets@, order@);
    proof {
        assert forall|i: int, j: int| 0 <= i < j < sorted.len() implies #[trigger] sorted[i]
            < #[trigger] sorted[j] by {
            let a = order@[i] as int;
            let b = order@[j] as int;
            assert(keys@[a] != keys@[b]) by {
                if a < b {
                } else {
                    assert(keys@[b] != keys@[a]);
                }
            }
        }
        assert forall|k: int| 0 <= k < rs.len() && !stays_inline(
            #[trigger] rs[k],
        ) implies sorted.contains(group_key(rs[k])) by {
            let key = group_key(rs[k]);
            let e = choose|e: int| 0 <= e < keys@.len() && keys@[e] == key;
            let i = crate::order::lemma_permutation_reaches(order@, e);
            assert(sorted[i] == key);
        }
        assert forall|e: int| 0 <= e < sorted.len() implies (#[trigger] all[e])@
            == group_members(rs, sorted[e], rs.len()) by {}
        assert forall|i: int| 0 <= i < sorted.len() implies group_members(
            rs,
            #[trigger] sorted[i],
            rs.len(),
        ).len() > 0 by {
            assert(all[i]@.len() > 0);
        }
        assert(are_group_keys(rs, sorted));
    }
    let buckets = arrange(buckets, &order);
    let mut groups: Vec<PackGroup> = Vec::new();
    let mut inline: Vec<usize> = inline_first;
    let ghost first = inline@;
    assert(group_contents(groups@) =~= packed_groups(rs, sorted.take(0)));
    assert(inline@ =~= first + unpacked_members(rs, sorted.take(0)));
    for bucket in it: buckets
        invariant
            it.seq() == all,
            rs == renditions@,
            n == rs.len(),
            sorted.len() == all.len(),
            forall|e: int|
                0 <= e < sorted.len() ==> (#[trigger] all[e])@ == group_members(
                    rs,
                    sorted[e],
                    rs.len(),
                ),
            forall|e: int| 0 <= e < sorted.len() ==> (#[trigger] all[e])@.len() > 0,
            group_contents(groups@) == packed_groups(rs, sorted.take(it.index() as int)),
            inline@ == first + unpacked_members(rs, sorted.take(it.index() as int)),
            forall|g: int| 0 <= g < groups@.len() ==> group_ok(rs, #[trigger] groups@[g]),
    {
        let ghost i = it.index() as int;
        proof {
            assert(bucket@ == all[i]@);
            lemma_group_members(rs, sorted[i], rs.len());
            assert(sorted.take(i + 1).drop_last() =~= sorted.take(i));
            assert(sorted.take(i + 1).last() == sorted[i]);
        }
        if check_packed(renditions, &bucket) {
            let r = &renditions[bucket[0]];
            let ghost members = bucket@;
            let ghost before = groups@;
            let group = PackGroup {
                pixel_format: r.pixel_format,
                scale: r.scale,
                sprite_atlas_id: r.sprite_atlas_id,
                idiom: r.idiom,
                of_icons: r.part == PART_ICON,
                members: bucket,
            };
            proof {
                assert forall|j: int| 0 <= j < members.len() implies {
                    let m = #[trigger] members[j];
                    &&& rs[m as int].pixel_format@ == group.pixel_format@
                    &&& rs[m as int].scale == group.scale
                    &&& rs[m as int].sprite_atlas_id == group.sprite_atlas_id
                    &&& rs[m as int].idiom == group.idiom
                    &&& (rs[m as int].part == PART_ICON) == group.of_icons
                } by {
                    assert(group_key(rs[members[0] as int]) == sorted[i]);
                    lemma_group_key_is_injective(rs[members[j] as int], *r);
                }
                assert(group_ok(rs, group));
            }
            groups.push(group);
            assert(group_contents(groups@) =~= group_contents(before).push(members));
        } else {
            let mut members = bucket;
            let ghost before = inline@;
            let ghost added = members@;
            inline.append(&mut members);
            assert(inline@ =~= before + added);
            assert(inline@ =~= first + unpacked_members(rs, sorted.take(i + 1)));
        }
    }
    assert(sorted.take(sorted.len() as int) =~= sorted);
    assert forall|g: int, i: int, j: int|
        0 <= g < groups@.len() && 0 <= i < groups@[g].members@.len() && 0 <= j
            < groups@[g].members@.len() implies alike(
        renditions@[#[trigger] groups@[g].members@[i] as int],
        renditions@[#[trigger] groups@[g].members@[j] as int],
    ) by {
        assert(group_ok(rs, groups@[g]));
    }
    (groups, inline)
}

} // verus!
