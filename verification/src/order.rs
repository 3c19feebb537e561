//! Stable sorting.  Sorting is done on positions: [`stable_order`] gives the
//! order in which the items of a list have to be taken, [`arrange`] takes them.

use vstd::prelude::*;
use vstd::utf8::encode_utf8;

use crate::bytes::{contents, copy_of, pair_contents};

verus! {

/// Keys that can be sorted by.
pub trait SortKey: Sized {
    /// Whether `self` comes strictly before `other`.
    spec fn before(&self, other: &Self) -> bool;

    /// No two keys come before each other, and what does not come before a key
    /// that does not come before a third does not come before the third.
    proof fn before_is_an_order(a: &Self, b: &Self, c: &Self)
        ensures
            !(a.before(b) && b.before(a)),
            !a.before(b) && !b.before(c) ==> !a.before(c),
    ;

    /// Whether `self` comes strictly before `other`.
    fn is_before(&self, other: &Self) -> (answer: bool)
        ensures
            answer == self.before(other),
    ;
}

impl SortKey for u64 {
    open spec fn before(&self, other: &Self) -> bool {
        *self < *other
    }

    proof fn before_is_an_order(a: &Self, b: &Self, c: &Self) {
    }

    fn is_before(&self, other: &Self) -> (answer: bool) {
        *self < *other
    }
}

impl SortKey for u128 {
    open spec fn before(&self, other: &Self) -> bool {
        *self < *other
    }

    proof fn before_is_an_order(a: &Self, b: &Self, c: &Self) {
    }

    fn is_before(&self, other: &Self) -> (answer: bool) {
        *self < *other
    }
}

/// Whether `a` comes before `b` in lexicographic order, from position `i` on.
pub open spec fn bytes_before(a: Seq<u8>, b: Seq<u8>, i: int) -> bool
    decreases b.len() - i,
{
    if i >= b.len() {
        false
    } else if i >= a.len() {
        true
    } else if a[i] != b[i] {
        a[i] < b[i]
    } else {
        bytes_before(a, b, i + 1)
    }
}

proof fn lemma_bytes_before_is_an_order(a: Seq<u8>, b: Seq<u8>, c: Seq<u8>, i: int)
    requires
        0 <= i,
    ensures
        !(bytes_before(a, b, i) && bytes_before(b, a, i)),
        !bytes_before(a, b, i) && !bytes_before(b, c, i) ==> !bytes_before(a, c, i),
    decreases a.len() + b.len() + c.len() - i,
{
    if i < a.len() || i < b.len() || i < c.len() {
        lemma_bytes_before_is_an_order(a, b, c, i + 1);
    }
}

impl SortKey for Vec<u8> {
    open spec fn before(&self, other: &Self) -> bool {
        bytes_before(self@, other@, 0)
    }

    proof fn before_is_an_order(a: &Self, b: &Self, c: &Self) {
        lemma_bytes_before_is_an_order(a@, b@, c@, 0);
    }

    fn is_before(&self, other: &Self) -> (answer: bool) {
        let mut i: usize = 0;
        while i < self.len() && i < other.len() && self[i] == other[i]
            invariant
                i <= self@.len(),
                i <= other@.len(),
                bytes_before(self@, other@, 0) == bytes_before(self@, other@, i as int),
            decreases self.len() - i,
        {
            i = i + 1;
        }
        if i >= other.len() {
            false
        } else if i >= self.len() {
            true
        } else {
            self[i] < other[i]
        }
    }
}

/// `p` lists each of the numbers below `n` once.
pub open spec fn is_permutation(p: Seq<usize>, n: nat) -> bool {
    &&& p.len() == n
    &&& forall|i: int| 0 <= i < n ==> #[trigger] p[i] < n
    &&& forall|i: int, j: int| 0 <= i < j < n ==> #[trigger] p[i] != #[trigger] p[j]
}

/// Taking `keys` in the order `p` gives them in ascending order; equal keys keep
/// the order they had.
pub open spec fn is_stable_order<K: SortKey>(keys: Seq<K>, p: Seq<usize>) -> bool {
    &&& is_permutation(p, keys.len())
    &&& forall|i: int, j: int|
        0 <= i < j < p.len() ==> {
            let a = #[trigger] p[i];
            let b = #[trigger] p[j];
            &&& !keys[b as int].before(&keys[a as int])
            &&& keys[a as int].before(&keys[b as int]) || a < b
        }
}

/// A key inserted behind all that it does not come before keeps a stable order.
proof fn lemma_inserted<K: SortKey>(keys: Seq<K>, p: Seq<usize>, k: int, at: int)
    requires
        0 <= at <= k < keys.len(),
        k <= usize::MAX,
        is_stable_order(keys.take(k), p),
        forall|i: int| at <= i < k ==> keys[k].before(&keys[#[trigger] p[i] as int]),
        at > 0 ==> !keys[k].before(&keys[p[at - 1] as int]),
    ensures
        is_stable_order(keys.take(k + 1), p.insert(at, k as usize)),
{
    let q = p.insert(at, k as usize);
    let first = keys.take(k);
    let next = keys.take(k + 1);
    assert forall|i: int| 0 <= i < at implies !keys[k].before(&keys[#[trigger] p[i] as int]) by {
        let last = keys[p[at - 1] as int];
        let mine = keys[p[i] as int];
        if i < at - 1 {
            assert(first[p[i] as int] == mine && first[p[at - 1] as int] == last);
            K::before_is_an_order(&keys[k], &last, &mine);
        }
    }
    assert forall|i: int| at <= i < k implies !(keys[#[trigger] p[i] as int].before(
        &keys[k],
    )) by {
        K::before_is_an_order(&keys[k], &keys[p[i] as int], &keys[k]);
    }
    assert(is_permutation(q, (k + 1) as nat)) by {
        assert forall|i: int| 0 <= i < k + 1 implies #[trigger] q[i] < k + 1 by {
            if i < at {
                assert(q[i] == p[i]);
            } else if i > at {
                assert(q[i] == p[i - 1]);
            }
        }
        assert forall|i: int, j: int| 0 <= i < j < k + 1 implies #[trigger] q[i]
            != #[trigger] q[j] by {
            let oi = if i < at { i } else { i - 1 };
            let oj = if j < at { j } else { j - 1 };
            if i != at {
                assert(q[i] == p[oi]);
            }
            if j != at {
                assert(q[j] == p[oj]);
            }
        }
    }
    assert forall|i: int, j: int| 0 <= i < j < q.len() implies {
        let a = #[trigger] q[i];
        let b = #[trigger] q[j];
        &&& !next[b as int].before(&next[a as int])
        &&& next[a as int].before(&next[b as int]) || a < b
    } by {
        let oi = if i < at { i } else { i - 1 };
        let oj = if j < at { j } else { j - 1 };
        if i != at {
            assert(q[i] == p[oi]);
        }
        if j != at {
            assert(q[j] == p[oj]);
        }
        if i != at && j != at {
            assert(first[p[oi] as int] == next[q[i] as int]);
            assert(first[p[oj] as int] == next[q[j] as int]);
        }
    }
}

/// Where key `k` is inserted, looked for from `at` downwards.
proof fn lemma_insertion_point<K: SortKey>(
    keys: Seq<K>,
    p: Seq<usize>,
    k: int,
    at: int,
) -> (found: int)
    requires
        0 <= at <= k < keys.len(),
        is_stable_order(keys.take(k), p),
        forall|i: int| at <= i < k ==> keys[k].before(&keys[#[trigger] p[i] as int]),
    ensures
        0 <= found <= k,
        forall|i: int| found <= i < k ==> keys[k].before(&keys[#[trigger] p[i] as int]),
        found > 0 ==> !keys[k].before(&keys[p[found - 1] as int]),
    decreases at,
{
    if at > 0 && keys[k].before(&keys[p[at - 1] as int]) {
        lemma_insertion_point(keys, p, k, at - 1)
    } else {
        at
    }
}

proof fn lemma_order_of_first<K: SortKey>(keys: Seq<K>, k: int) -> (p: Seq<usize>)
    requires
        0 <= k <= keys.len() <= usize::MAX,
    ensures
        is_stable_order(keys.take(k), p),
    decreases k,
{
    if k == 0 {
        Seq::empty()
    } else {
        let before = lemma_order_of_first(keys, k - 1);
        let at = lemma_insertion_point(keys, before, k - 1, k - 1);
        lemma_inserted(keys, before, k - 1, at);
        before.insert(at, (k - 1) as usize)
    }
}

/// Keys always have a stable order.
pub proof fn stable_orders_exist<K: SortKey>(keys: Seq<K>)
    requires
        keys.len() <= usize::MAX,
    ensures
        exists|p: Seq<usize>| is_stable_order(keys, p),
{
    let p = lemma_order_of_first(keys, keys.len() as int);
    assert(keys.take(keys.len() as int) =~= keys);
    assert(is_stable_order(keys, p));
}

/// The stable ascending order of `keys`.
pub fn stable_order<K: SortKey>(keys: &Vec<K>) -> (p: Vec<usize>)
    ensures
        is_stable_order(keys@, p@),
{
    let mut p: Vec<usize> = Vec::new();
    let mut k: usize = 0;
    while k < keys.len()
        invariant
            k <= keys@.len(),
            is_stable_order(keys@.take(k as int), p@),
        decreases keys.len() - k,
    {
        let mut at: usize = k;
        while at > 0 && keys[k].is_before(&keys[p[at - 1]])
            invariant
                at <= k < keys@.len(),
                is_stable_order(keys@.take(k as int), p@),
                forall|i: int|
                    at <= i < k ==> keys@[k as int].before(&keys@[#[trigger] p@[i] as int]),
            decreases at,
        {
            at = at - 1;
        }
        proof {
            lemma_inserted(keys@, p@, k as int, at as int);
        }
        p.insert(at, k);
        k = k + 1;
    }
    assert(keys@.take(k as int) =~= keys@);
    p
}

/// Two stable orders of the same keys are the same.
pub proof fn stable_order_is_unique<K: SortKey>(keys: Seq<K>, p: Seq<usize>, q: Seq<usize>)
    requires
        is_stable_order(keys, p),
        is_stable_order(keys, q),
    ensures
        p == q,
{
    let n = keys.len();
    assert forall|i: int| 0 <= i < n implies p[i] == q[i] by {
        lemma_same_up_to(keys, p, q, n as int);
    }
    assert(p =~= q);
}

/// `p` reaches every number below its length.
pub proof fn lemma_permutation_reaches(p: Seq<usize>, v: int) -> (i: int)
    requires
        is_permutation(p, p.len()),
        0 <= v < p.len(),
    ensures
        0 <= i < p.len(),
        p[i] == v,
{
    if forall|i: int| 0 <= i < p.len() ==> p[i] != v {
        let reached = p.map_values(|x: usize| x as int).to_set();
        let all = vstd::set_lib::set_int_range(0, p.len() as int);
        vstd::set_lib::lemma_int_range(0, p.len() as int);
        let ints = p.map_values(|x: usize| x as int);
        assert(ints.no_duplicates());
        ints.unique_seq_to_set();
        assert(reached.subset_of(all.remove(v))) by {
            assert forall|x: int| reached.contains(x) implies all.remove(v).contains(x) by {
                let i = choose|i: int| 0 <= i < ints.len() && ints[i] == x;
                assert(p[i] == x);
            }
        }
        vstd::set_lib::lemma_len_subset(reached, all.remove(v));
        assert(false);
    }
    choose|i: int| 0 <= i < p.len() && p[i] == v
}

/// Two stable orders agree on their first `k` places.
proof fn lemma_same_up_to<K: SortKey>(keys: Seq<K>, p: Seq<usize>, q: Seq<usize>, k: int)
    requires
        is_stable_order(keys, p),
        is_stable_order(keys, q),
        0 <= k <= keys.len(),
    ensures
        forall|i: int| 0 <= i < k ==> p[i] == q[i],
    decreases k,
{
    if k > 0 {
        lemma_same_up_to(keys, p, q, k - 1);
        let i = k - 1;
        if p[i] != q[i] {
            let a = lemma_permutation_reaches(q, p[i] as int);
            let b = lemma_permutation_reaches(p, q[i] as int);
            assert(a > i) by {
                if a < i {
                    assert(p[a] == q[a]);
                }
            }
            assert(b > i) by {
                if b < i {
                    assert(p[b] == q[b]);
                }
            }
            assert(q[i] == p[b] && q[a] == p[i]);
        }
    }
}

/// The items of `items` in the order `p`.
pub open spec fn arranged<T>(items: Seq<T>, p: Seq<usize>) -> Seq<T> {
    Seq::new(p.len(), |i: int| items[p[i] as int])
}

/// Takes the items of a list in the order `p`.
pub fn arrange<T>(items: Vec<T>, p: &Vec<usize>) -> (out: Vec<T>)
    requires
        is_permutation(p@, items@.len()),
    ensures
        out@ == arranged(items@, p@),
{
    let ghost all = items@;
    let mut slots: Vec<Option<T>> = Vec::new();
    for item in it: items
        invariant
            it.seq() == all,
            slots@.len() == it.index(),
            forall|i: int| 0 <= i < slots@.len() ==> #[trigger] slots@[i] == Some(all[i]),
    {
        slots.push(Some(item));
    }
    let mut out: Vec<T> = Vec::new();
    let mut i: usize = 0;
    while i < p.len()
        invariant
            i <= p@.len(),
            is_permutation(p@, all.len()),
            slots@.len() == all.len(),
            forall|j: int| i <= j < p@.len() ==> slots@[#[trigger] p@[j] as int] == Some(
                all[p@[j] as int],
            ),
            out@ == arranged(all, p@.take(i as int)),
        decreases p.len() - i,
    {
        assert(slots@[p@[i as int] as int] == Some(all[p@[i as int] as int]));
        let mut slot: Option<T> = None;
        core::mem::swap(&mut slot, &mut slots[p[i]]);
        if let Some(item) = slot {
            out.push(item);
        }
        i = i + 1;
        assert(out@ =~= arranged(all, p@.take(i as int)));
    }
    assert(p@.take(i as int) =~= p@);
    out
}

/// Taking `keys` in the order `p` gives them in lexicographic order; equal keys
/// keep the order they had.
pub open spec fn is_byte_order(keys: Seq<Seq<u8>>, p: Seq<usize>) -> bool {
    &&& is_permutation(p, keys.len())
    &&& forall|i: int, j: int|
        0 <= i < j < p.len() ==> {
            let a = #[trigger] p[i];
            let b = #[trigger] p[j];
            &&& !bytes_before(keys[b as int], keys[a as int], 0)
            &&& bytes_before(keys[a as int], keys[b as int], 0) || a < b
        }
}

/// The lexicographic order of `keys`.
pub open spec fn byte_order(keys: Seq<Seq<u8>>) -> Seq<usize> {
    choose|p: Seq<usize>| is_byte_order(keys, p)
}

/// The lexicographic order of a list of byte vectors is the only one there is.
pub proof fn byte_order_is_unique(keys: Seq<Vec<u8>>, p: Seq<usize>)
    requires
        is_stable_order(keys, p),
    ensures
        is_byte_order(contents(keys), p),
        p == byte_order(contents(keys)),
{
    let all = contents(keys);
    assert(is_byte_order(all, p));
    let q = byte_order(all);
    assert(is_byte_order(all, q));
    assert(is_stable_order(keys, q)) by {
        assert forall|i: int, j: int| 0 <= i < j < q.len() implies {
            let a = #[trigger] q[i];
            let b = #[trigger] q[j];
            &&& !keys[b as int].before(&keys[a as int])
            &&& keys[a as int].before(&keys[b as int]) || a < b
        } by {
            assert(all[q[i] as int] == keys[q[i] as int]@);
            assert(all[q[j] as int] == keys[q[j] as int]@);
        }
    }
    stable_order_is_unique(keys, p, q);
}

/// The first of each pair.
pub open spec fn first_keys(pairs: Seq<(Seq<u8>, Seq<u8>)>) -> Seq<Seq<u8>> {
    Seq::new(pairs.len(), |i: int| pairs[i].0)
}

/// Pairs in the lexicographic order of their keys.
pub open spec fn sorted_pairs(pairs: Seq<(Seq<u8>, Seq<u8>)>) -> Seq<(Seq<u8>, Seq<u8>)> {
    arranged(pairs, byte_order(first_keys(pairs)))
}

/// Sorts pairs by their keys; pairs with the same key keep their order.
pub fn sort_pairs(pairs: Vec<(Vec<u8>, Vec<u8>)>) -> (sorted: Vec<(Vec<u8>, Vec<u8>)>)
    ensures
        pair_contents(sorted@) == sorted_pairs(pair_contents(pairs@)),
        is_byte_order(
            first_keys(pair_contents(pairs@)),
            byte_order(first_keys(pair_contents(pairs@))),
        ),
{
    let mut keys: Vec<Vec<u8>> = Vec::new();
    let mut i: usize = 0;
    while i < pairs.len()
        invariant
            i <= pairs@.len(),
            keys@.len() == i,
            forall|j: int| 0 <= j < i ==> (#[trigger] keys@[j])@ == pairs@[j].0@,
        decreases pairs.len() - i,
    {
        keys.push(copy_of(pairs[i].0.as_slice()));
        i = i + 1;
    }
    assert(contents(keys@) =~= first_keys(pair_contents(pairs@)));
    let order = stable_order(&keys);
    proof {
        byte_order_is_unique(keys@, order@);
    }
    let sorted = arrange(pairs, &order);
    assert(pair_contents(sorted@) =~= sorted_pairs(pair_contents(pairs@)));
    sorted
}

/// The UTF-8 encodings of texts.
pub open spec fn encodings(texts: Seq<Seq<char>>) -> Seq<Seq<u8>> {
    Seq::new(texts.len(), |i: int| encode_utf8(texts[i]))
}

/// The texts of a list of strings.
pub open spec fn texts(names: Seq<String>) -> Seq<Seq<char>> {
    Seq::new(names.len(), |i: int| names[i]@)
}

/// Texts in the order of their UTF-8 encodings.
pub open spec fn sorted_texts(texts: Seq<Seq<char>>) -> Seq<Seq<char>> {
    arranged(texts, byte_order(encodings(texts)))
}

/// The order in which strings have to be taken to be sorted.
pub fn text_order(names: &Vec<String>) -> (order: Vec<usize>)
    ensures
        is_byte_order(encodings(texts(names@)), order@),
        order@ == byte_order(encodings(texts(names@))),
        is_permutation(order@, names@.len()),
{
    let mut keys: Vec<Vec<u8>> = Vec::new();
    let mut i: usize = 0;
    while i < names.len()
        invariant
            i <= names@.len(),
            keys@.len() == i,
            forall|j: int| 0 <= j < i ==> (#[trigger] keys@[j])@ == encode_utf8(names@[j]@),
        decreases names.len() - i,
    {
        keys.push(copy_of(names[i].as_str().as_bytes()));
        i = i + 1;
    }
    assert(contents(keys@) =~= encodings(texts(names@)));
    let order = stable_order(&keys);
    proof {
        byte_order_is_unique(keys@, order@);
    }
    order
}

/// Sorts strings.
pub fn sort_texts(names: Vec<String>) -> (sorted: Vec<String>)
    ensures
        texts(sorted@) == sorted_texts(texts(names@)),
{
    let order = text_order(&names);
    let sorted = arrange(names, &order);
    assert(texts(sorted@) =~= sorted_texts(texts(names@)));
    sorted
}

} // verus!
