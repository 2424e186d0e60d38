//! Stable sorting by text keys, as std's stable `sort_by_key` orders
//! `String` keys, and rearranging owned items into a computed order.
use vstd::prelude::*;
use crate::text::{text_lt, text_less, lemma_text_lt_irreflexive, lemma_text_lt_transitive, lemma_text_lt_total};

verus! {

/// Position `a` goes before position `b`: its key is smaller, or the keys
/// are equal and it came first.
pub open spec fn precedes(keys: Seq<Seq<char>>, a: int, b: int) -> bool {
    text_lt(keys[a], keys[b]) || (keys[a] == keys[b] && a < b)
}

/// Position `j` occurs in `order`.
pub open spec fn lists(order: Seq<usize>, j: int) -> bool {
    exists|k: int| 0 <= k < order.len() && #[trigger] order[k] == j
}

/// `order` lists every position of `keys` exactly once, arranged by key and,
/// among equal keys, by position: the arrangement a stable sort produces.
pub open spec fn is_stable_order(keys: Seq<Seq<char>>, order: Seq<usize>) -> bool {
    &&& order.len() == keys.len()
    &&& forall|k: int| 0 <= k < order.len() ==> #[trigger] order[k] < keys.len()
    &&& forall|j: int| 0 <= j < keys.len() ==> #[trigger] lists(order, j)
    &&& forall|a: int, b: int| 0 <= a < b < order.len() ==> precedes(keys, #[trigger] order[a] as int, #[trigger] order[b] as int)
}

/// No position occurs twice in `order`.
pub open spec fn distinct(order: Seq<usize>) -> bool {
    forall|a: int, b: int| 0 <= a < b < order.len() ==> #[trigger] order[a] != #[trigger] order[b]
}

/// The texts of a list of character vectors.
pub open spec fn texts(keys: Seq<Vec<char>>) -> Seq<Seq<char>> {
    keys.map_values(|k: Vec<char>| k@)
}

/// A stable order never lists a position twice.
pub proof fn lemma_stable_order_distinct(keys: Seq<Seq<char>>, order: Seq<usize>)
    requires
        is_stable_order(keys, order),
    ensures
        distinct(order),
{
    assert forall|a: int, b: int| 0 <= a < b < order.len() implies #[trigger] order[a] != #[trigger] order[b] by {
        if order[a] == order[b] {
            assert(precedes(keys, order[a] as int, order[b] as int));
            lemma_text_lt_irreflexive(keys[order[a] as int]);
        }
    }
}

/// The positions of `keys` in the order a stable sort by key puts them.
pub fn stable_order_by_text(keys: &Vec<Vec<char>>) -> (order: Vec<usize>)
    ensures
        is_stable_order(texts(keys@), order@),
{
    let ghost ks = texts(keys@);
    let mut order: Vec<usize> = Vec::new();
    let n = keys.len();
    for i in 0..n
        invariant
            n == keys@.len(),
            ks == texts(keys@),
            ks.len() == n,
            order@.len() == i,
            forall|k: int| 0 <= k < order@.len() ==> #[trigger] order@[k] < i,
            forall|j: int| 0 <= j < i ==> #[trigger] lists(order@, j),
            forall|a: int, b: int| 0 <= a < b < order@.len() ==> precedes(ks, #[trigger] order@[a] as int, #[trigger] order@[b] as int),
    {
        let mut p: usize = 0;
        while p < order.len() && !text_less(&keys[i], &keys[order[p]])
            invariant
                n == keys@.len(),
                ks == texts(keys@),
                i < n,
                p <= order@.len(),
                forall|k: int| 0 <= k < order@.len() ==> #[trigger] order@[k] < i,
                forall|a: int| 0 <= a < p ==> !text_lt(ks[i as int], #[trigger] ks[order@[a] as int]),
            decreases order@.len() - p,
        {
            p = p + 1;
        }
        let ghost old_order = order@;
        order.insert(p, i);
        proof {
            assert(order@ == old_order.insert(p as int, i));
            assert forall|k: int| 0 <= k < order@.len() implies #[trigger] order@[k] < i + 1 by {
                if k < p {
                    assert(order@[k] == old_order[k]);
                } else if k > p {
                    assert(order@[k] == old_order[k - 1]);
                }
            }
            assert forall|j: int| 0 <= j < i + 1 implies #[trigger] lists(order@, j) by {
                if j == i {
                    assert(order@[p as int] == j);
                } else {
                    assert(lists(old_order, j));
                    let k0 = choose|k: int| 0 <= k < old_order.len() && #[trigger] old_order[k] == j;
                    if k0 < p {
                        assert(order@[k0] == j);
                    } else {
                        assert(order@[k0 + 1] == j);
                    }
                }
            }
            assert forall|a: int, b: int| 0 <= a < b < order@.len() implies precedes(ks, #[trigger] order@[a] as int, #[trigger] order@[b] as int) by {
                let x = order@[a] as int;
                let y = order@[b] as int;
                if b < p {
                    assert(x == old_order[a] && y == old_order[b]);
                } else if a > p {
                    assert(x == old_order[a - 1] && y == old_order[b - 1]);
                } else if a < p && b > p {
                    assert(x == old_order[a] && y == old_order[b - 1]);
                } else if b == p {
                    // an earlier entry whose key is not above the new one
                    assert(x == old_order[a]);
                    assert(y == i);
                    assert(!text_lt(ks[i as int], ks[x]));
                    lemma_text_lt_total(ks[i as int], ks[x]);
                    assert(x < i);
                } else {
                    // a == p: the new entry, before a later one whose key is above it
                    assert(x == i);
                    assert(y == old_order[b - 1]);
                    let q = order@[p + 1] as int;
                    assert(q == old_order[p as int]);
                    assert(text_lt(ks[i as int], ks[q]));
                    if b - 1 > p {
                        assert(precedes(ks, old_order[p as int] as int, old_order[b - 1] as int));
                        if text_lt(ks[q], ks[y]) {
                            lemma_text_lt_transitive(ks[i as int], ks[q], ks[y]);
                        }
                    }
                }
            }
        }
    }
    order
}

/// The items of `items` in the arrangement `order` gives: entry `k` of the
/// result is `items[order[k]]`.
pub fn apply_order<T>(items: Vec<T>, order: &Vec<usize>) -> (res: Vec<T>)
    requires
        forall|k: int| 0 <= k < order@.len() ==> #[trigger] order@[k] < items@.len(),
        distinct(order@),
    ensures
        res@.len() == order@.len(),
        forall|k: int| 0 <= k < order@.len() ==> #[trigger] res@[k] == items@[order@[k] as int],
{
    let ghost original = items@;
    let mut slots: Vec<Option<T>> = Vec::new();
    for x in it: items
        invariant
            it.seq() == original,
            slots@.len() == it.index(),
            forall|j: int| 0 <= j < slots@.len() ==> #[trigger] slots@[j] == Some(original[j]),
    {
        slots.push(Some(x));
    }
    let mut res: Vec<T> = Vec::new();
    let m = order.len();
    for k in 0..m
        invariant
            m == order@.len(),
            slots@.len() == original.len(),
            forall|q: int| 0 <= q < order@.len() ==> #[trigger] order@[q] < original.len(),
            distinct(order@),
            res@.len() == k,
            forall|q: int| 0 <= q < k ==> #[trigger] res@[q] == original[order@[q] as int],
            forall|j: int| 0 <= j < slots@.len() ==> (#[trigger] slots@[j] == Some(original[j])
                || exists|q: int| 0 <= q < k && #[trigger] order@[q] == j),
    {
        let idx = order[k];
        assert(slots@[idx as int] == Some(original[idx as int])) by {
            if slots@[idx as int] != Some(original[idx as int]) {
                let q = choose|q: int| 0 <= q < k && #[trigger] order@[q] == idx;
                assert(order@[q] == order@[k as int]);
            }
        }
        let ghost before = slots@;
        let mut slot: Option<T> = None;
        std::mem::swap(&mut slot, &mut slots[idx]);
        assert(slots@ == before.update(idx as int, None));
        match slot {
            Some(x) => {
                res.push(x);
            },
            None => {
                assert(false);
            },
        }
        assert forall|j: int| 0 <= j < slots@.len() implies (#[trigger] slots@[j] == Some(original[j])
            || exists|q: int| 0 <= q < k + 1 && #[trigger] order@[q] == j) by {
            if j == idx {
                assert(order@[k as int] == j);
            } else {
                assert(slots@[j] == before[j]);
            }
        }
    }
    res
}

} // verus!
