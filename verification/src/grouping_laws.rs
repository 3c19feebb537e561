//! Every rendition of a catalog is stored in one place: on its own or on sheets.

use vstd::prelude::*;

use crate::grouping::{
    are_group_keys, group_key, group_members, inline_members, is_packed, lemma_group_members,
    packed_groups, stays_inline, unpacked_members,
};
use crate::rendition::Rendition;

verus! {

/// Keys in ascending order.
pub open spec fn ascending(keys: Seq<u128>) -> bool {
    forall|i: int, j: int| 0 <= i < j < keys.len() ==> #[trigger] keys[i] < #[trigger] keys[j]
}

/// Whether one of some groups has a rendition.
pub open spec fn is_grouped(groups: Seq<Seq<usize>>, k: usize) -> bool {
    exists|g: int| 0 <= g < groups.len() && (#[trigger] groups[g]).contains(k)
}

/// A rendition that is not stored on its own is a member of its group.
proof fn lemma_is_member(rs: Seq<Rendition>, n: nat, k: int)
    requires
        0 <= k < n <= rs.len(),
        rs.len() <= usize::MAX,
        !stays_inline(rs[k]),
    ensures
        group_members(rs, group_key(rs[k]), n).contains(k as usize),
    decreases n,
{
    let key = group_key(rs[k]);
    let all = group_members(rs, key, n);
    let before = group_members(rs, key, (n - 1) as nat);
    if k == n - 1 {
        assert(all[all.len() - 1] == k);
    } else {
        lemma_is_member(rs, (n - 1) as nat, k);
        let i = choose|i: int| 0 <= i < before.len() && before[i] == k as usize;
        assert(all[i] == before[i]);
    }
}

/// The members of a group stand in order.
proof fn lemma_members_ascend(rs: Seq<Rendition>, key: u128, n: nat)
    requires
        n <= rs.len() <= usize::MAX,
    ensures
        group_members(rs, key, n).no_duplicates(),
    decreases n,
{
    if n > 0 {
        lemma_members_ascend(rs, key, (n - 1) as nat);
        lemma_group_members(rs, key, (n - 1) as nat);
    }
}

/// The renditions that are stored on their own.
proof fn lemma_inline_members(rs: Seq<Rendition>, n: nat)
    requires
        n <= rs.len() <= usize::MAX,
    ensures
        inline_members(rs, n).no_duplicates(),
        forall|k: int|
            0 <= k < n && stays_inline(#[trigger] rs[k]) ==> inline_members(rs, n).contains(
                k as usize,
            ),
        forall|i: int|
            0 <= i < inline_members(rs, n).len() ==> {
                let m = #[trigger] inline_members(rs, n)[i];
                m < n && stays_inline(rs[m as int])
            },
    decreases n,
{
    if n > 0 {
        let all = inline_members(rs, n);
        let before = inline_members(rs, (n - 1) as nat);
        lemma_inline_members(rs, (n - 1) as nat);
        assert forall|k: int| 0 <= k < n && stays_inline(#[trigger] rs[k]) implies all.contains(
            k as usize,
        ) by {
            if k == n - 1 {
                assert(all[all.len() - 1] == k);
            } else {
                let i = choose|i: int| 0 <= i < before.len() && before[i] == k as usize;
                assert(all[i] == k as usize);
            }
        }
    }
}

/// A packed group is the group of one of the keys.
proof fn lemma_group_from(rs: Seq<Rendition>, keys: Seq<u128>, g: int) -> (i: int)
    requires
        0 <= g < packed_groups(rs, keys).len(),
    ensures
        0 <= i < keys.len(),
        packed_groups(rs, keys)[g] == group_members(rs, keys[i], rs.len()),
        is_packed(rs, group_members(rs, keys[i], rs.len())),
    decreases keys.len(),
{
    let before = packed_groups(rs, keys.drop_last());
    if g < before.len() {
        let i = lemma_group_from(rs, keys.drop_last(), g);
        assert(keys.drop_last()[i] == keys[i]);
        i
    } else {
        keys.len() - 1
    }
}

/// A packed group of a key is among the packed groups.
proof fn lemma_group_of(rs: Seq<Rendition>, keys: Seq<u128>, i: int) -> (g: int)
    requires
        0 <= i < keys.len(),
        is_packed(rs, group_members(rs, keys[i], rs.len())),
    ensures
        0 <= g < packed_groups(rs, keys).len(),
        packed_groups(rs, keys)[g] == group_members(rs, keys[i], rs.len()),
    decreases keys.len(),
{
    if i == keys.len() - 1 {
        packed_groups(rs, keys).len() - 1
    } else {
        assert(keys.drop_last()[i] == keys[i]);
        lemma_group_of(rs, keys.drop_last(), i)
    }
}

/// What is not packed comes from a group of one of the keys.
proof fn lemma_unpacked_from(rs: Seq<Rendition>, keys: Seq<u128>, u: int) -> (i: int)
    requires
        0 <= u < unpacked_members(rs, keys).len(),
    ensures
        0 <= i < keys.len(),
        group_members(rs, keys[i], rs.len()).contains(unpacked_members(rs, keys)[u]),
        !is_packed(rs, group_members(rs, keys[i], rs.len())),
    decreases keys.len(),
{
    let before = unpacked_members(rs, keys.drop_last());
    let members = group_members(rs, keys.last(), rs.len());
    if u < before.len() {
        let i = lemma_unpacked_from(rs, keys.drop_last(), u);
        assert(keys.drop_last()[i] == keys[i]);
        i
    } else {
        assert(unpacked_members(rs, keys)[u] == members[u - before.len()]);
        keys.len() - 1
    }
}

/// The members of a group that is not packed are among those that are not packed.
proof fn lemma_unpacked_of(rs: Seq<Rendition>, keys: Seq<u128>, i: int, k: usize)
    requires
        0 <= i < keys.len(),
        !is_packed(rs, group_members(rs, keys[i], rs.len())),
        group_members(rs, keys[i], rs.len()).contains(k),
    ensures
        unpacked_members(rs, keys).contains(k),
    decreases keys.len(),
{
    let all = unpacked_members(rs, keys);
    let before = unpacked_members(rs, keys.drop_last());
    let members = group_members(rs, keys[i], rs.len());
    if i == keys.len() - 1 {
        let j = choose|j: int| 0 <= j < members.len() && members[j] == k;
        assert(all[before.len() + j] == k);
    } else {
        assert(keys.drop_last()[i] == keys[i]);
        lemma_unpacked_of(rs, keys.drop_last(), i, k);
        let j = choose|j: int| 0 <= j < before.len() && before[j] == k;
        assert(all[j] == k);
    }
}

/// Every rendition is either stored on its own or put on a sheet, never both.
pub proof fn every_rendition_has_a_place(rs: Seq<Rendition>, keys: Seq<u128>, k: int)
    requires
        are_group_keys(rs, keys),
        0 <= k < rs.len() <= usize::MAX,
    ensures
        (inline_members(rs, rs.len()) + unpacked_members(rs, keys)).contains(k as usize)
            != is_grouped(packed_groups(rs, keys), k as usize),
{
    let n = rs.len();
    let own = inline_members(rs, n);
    let left = unpacked_members(rs, keys);
    let all = own + left;
    let groups = packed_groups(rs, keys);
    let id = k as usize;
    let key = group_key(rs[k]);
    lemma_inline_members(rs, n);
    if stays_inline(rs[k]) {
        let i = choose|i: int| 0 <= i < own.len() && own[i] == id;
        assert(all[i] == id);
        if is_grouped(groups, id) {
            let g = choose|g: int| 0 <= g < groups.len() && (#[trigger] groups[g]).contains(id);
            let i = lemma_group_from(rs, keys, g);
            lemma_group_members(rs, keys[i], n);
            let j = choose|j: int| 0 <= j < groups[g].len() && groups[g][j] == id;
            assert(group_members(rs, keys[i], n)[j] == id);
        }
    } else {
        lemma_is_member(rs, n, k);
        let at = choose|at: int| 0 <= at < keys.len() && keys[at] == key;
        let members = group_members(rs, key, n);
        if is_packed(rs, members) {
            let g = lemma_group_of(rs, keys, at);
            assert(groups[g].contains(id));
            if all.contains(id) {
                let i = choose|i: int| 0 <= i < all.len() && all[i] == id;
                if i < own.len() {
                    assert(own[i] == id);
                } else {
                    let u = i - own.len();
                    assert(left[u] == id);
                    let p = lemma_unpacked_from(rs, keys, u);
                    lemma_group_members(rs, keys[p], n);
                    let other = group_members(rs, keys[p], n);
                    let j = choose|j: int| 0 <= j < other.len() && other[j] == id;
                    assert(other[j] == id);
                }
            }
        } else {
            lemma_unpacked_of(rs, keys, at, id);
            let u = choose|u: int| 0 <= u < left.len() && left[u] == id;
            assert(all[own.len() + u] == id);
            if is_grouped(groups, id) {
                let g = choose|g: int|
                    0 <= g < groups.len() && (#[trigger] groups[g]).contains(id);
                let p = lemma_group_from(rs, keys, g);
                lemma_group_members(rs, keys[p], n);
                let j = choose|j: int| 0 <= j < groups[g].len() && groups[g][j] == id;
                assert(group_members(rs, keys[p], n)[j] == id);
            }
        }
    }
}

/// What two groups of different keys have in common: nothing.
proof fn lemma_groups_differ(rs: Seq<Rendition>, a: u128, b: u128, i: int, j: int)
    requires
        a != b,
        rs.len() <= usize::MAX,
        0 <= i < group_members(rs, a, rs.len()).len(),
        0 <= j < group_members(rs, b, rs.len()).len(),
    ensures
        group_members(rs, a, rs.len())[i] != group_members(rs, b, rs.len())[j],
{
    lemma_group_members(rs, a, rs.len());
    lemma_group_members(rs, b, rs.len());
    let x = group_members(rs, a, rs.len())[i];
    let y = group_members(rs, b, rs.len())[j];
    assert(group_key(rs[x as int]) == a && group_key(rs[y as int]) == b);
}

/// No rendition is on two sheets' groups, and none twice in one.
pub proof fn groups_are_disjoint(rs: Seq<Rendition>, keys: Seq<u128>)
    requires
        ascending(keys),
        rs.len() <= usize::MAX,
    ensures
        forall|g: int|
            0 <= g < packed_groups(rs, keys).len() ==> (#[trigger] packed_groups(
                rs,
                keys,
            )[g]).no_duplicates(),
        forall|g: int, h: int, i: int, j: int|
            #![trigger packed_groups(rs, keys)[g][i], packed_groups(rs, keys)[h][j]]
            0 <= g < h < packed_groups(rs, keys).len() && 0 <= i < packed_groups(
                rs,
                keys,
            )[g].len() && 0 <= j < packed_groups(rs, keys)[h].len() ==> packed_groups(rs, keys)[g][i]
                != packed_groups(rs, keys)[h][j],
    decreases keys.len(),
{
    if keys.len() > 0 {
        let rest = keys.drop_last();
        let groups = packed_groups(rs, keys);
        let before = packed_groups(rs, rest);
        let members = group_members(rs, keys.last(), rs.len());
        groups_are_disjoint(rs, rest);
        lemma_members_ascend(rs, keys.last(), rs.len());
        assert forall|g: int| 0 <= g < groups.len() implies (
        #[trigger] groups[g]).no_duplicates() by {
            if g < before.len() {
                assert(groups[g] == before[g]);
            }
        }
        assert forall|g: int, h: int, i: int, j: int|
            #![trigger groups[g][i], groups[h][j]]
            0 <= g < h < groups.len() && 0 <= i < groups[g].len() && 0 <= j
                < groups[h].len() implies groups[g][i] != groups[h][j] by {
            assert(groups[g] == before[g]);
            if h < before.len() {
                assert(groups[h] == before[h]);
                assert(before[g][i] != before[h][j]);
            } else {
                let p = lemma_group_from(rs, rest, g);
                assert(rest[p] == keys[p]);
                lemma_groups_differ(rs, keys[p], keys.last(), i, j);
            }
        }
    }
}

/// What is not packed is listed once.
proof fn lemma_unpacked_once(rs: Seq<Rendition>, keys: Seq<u128>)
    requires
        ascending(keys),
        rs.len() <= usize::MAX,
    ensures
        unpacked_members(rs, keys).no_duplicates(),
    decreases keys.len(),
{
    if keys.len() > 0 {
        let rest = keys.drop_last();
        let all = unpacked_members(rs, keys);
        let before = unpacked_members(rs, rest);
        let members = group_members(rs, keys.last(), rs.len());
        lemma_unpacked_once(rs, rest);
        lemma_members_ascend(rs, keys.last(), rs.len());
        assert forall|i: int, j: int| 0 <= i < all.len() && 0 <= j < all.len() && i
            != j implies all[i] != all[j] by {
            if i < before.len() && j < before.len() {
                assert(before[i] != before[j]);
            } else if i >= before.len() && j >= before.len() {
                assert(members[i - before.len()] != members[j - before.len()]);
            } else {
                let (a, b) = if i < before.len() {
                    (i, j - before.len())
                } else {
                    (j, i - before.len())
                };
                let p = lemma_unpacked_from(rs, rest, a);
                assert(rest[p] == keys[p]);
                let others = group_members(rs, keys[p], rs.len());
                let q = choose|q: int| 0 <= q < others.len() && others[q] == before[a];
                lemma_groups_differ(rs, keys[p], keys.last(), q, b);
            }
        }
    }
}

/// What is stored on its own is listed once.
pub proof fn own_renditions_are_listed_once(rs: Seq<Rendition>, keys: Seq<u128>)
    requires
        ascending(keys),
        rs.len() <= usize::MAX,
    ensures
        (inline_members(rs, rs.len()) + unpacked_members(rs, keys)).no_duplicates(),
{
    let own = inline_members(rs, rs.len());
    let left = unpacked_members(rs, keys);
    let all = own + left;
    lemma_inline_members(rs, rs.len());
    lemma_unpacked_once(rs, keys);
    assert forall|i: int, j: int| 0 <= i < all.len() && 0 <= j < all.len() && i
        != j implies all[i] != all[j] by {
        if i < own.len() && j < own.len() {
            assert(own[i] != own[j]);
        } else if i >= own.len() && j >= own.len() {
            assert(left[i - own.len()] != left[j - own.len()]);
        } else {
            let (a, b) = if i < own.len() {
                (i, j - own.len())
            } else {
                (j, i - own.len())
            };
            let p = lemma_unpacked_from(rs, keys, b);
            let others = group_members(rs, keys[p], rs.len());
            let q = choose|q: int| 0 <= q < others.len() && others[q] == left[b];
            lemma_group_members(rs, keys[p], rs.len());
            assert(!stays_inline(rs[others[q] as int]));
            assert(stays_inline(rs[own[a] as int]));
        }
    }
}

} // verus!
