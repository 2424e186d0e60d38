//! What a stable order by text gives: the texts in sorted order, the same
//! list whatever order the texts came in.
use vstd::prelude::*;
use vstd::relations::{sorted_by, total_ordering};
use crate::order::{distinct, is_stable_order, lemma_stable_order_distinct, lists, precedes};
use crate::text::{lemma_text_lt_asymmetric, lemma_text_lt_total, lemma_text_lt_transitive, text_le};

verus! {

broadcast use vstd::multiset::group_multiset_axioms, vstd::seq_lib::group_to_multiset_ensures;

/// The items at the positions `order` lists, in that order.
pub open spec fn picked<T>(items: Seq<T>, order: Seq<usize>) -> Seq<T> {
    order.map_values(|i: usize| items[i as int])
}

/// `order` lists each of the positions below `n` exactly once.
pub open spec fn rearranges(order: Seq<usize>, n: int) -> bool {
    &&& order.len() == n
    &&& forall|k: int| 0 <= k < order.len() ==> #[trigger] order[k] < n
    &&& forall|j: int| 0 <= j < n ==> #[trigger] lists(order, j)
    &&& distinct(order)
}

/// Text order, ties included, as a relation.
pub open spec fn text_order() -> spec_fn(Seq<char>, Seq<char>) -> bool {
    |a: Seq<char>, b: Seq<char>| text_le(a, b)
}

/// Picking every position once keeps the same items, each as often.
pub proof fn lemma_rearranged_items<T>(items: Seq<T>, order: Seq<usize>)
    requires
        rearranges(order, items.len() as int),
    ensures
        picked(items, order).to_multiset() == items.to_multiset(),
    decreases items.len(),
{
    let p = picked(items, order);
    if items.len() == 0 {
        assert(p =~= items);
    } else {
        let n = items.len() - 1;
        assert(lists(order, n));
        let k = choose|k: int| 0 <= k < order.len() && #[trigger] order[k] == n;
        let rest_items = items.drop_last();
        let rest_order = order.remove(k);
        assert forall|q: int| 0 <= q < rest_order.len() implies #[trigger] rest_order[q] < n by {
            if q < k {
                assert(rest_order[q] == order[q]);
                assert(order[q] != order[k]);
            } else {
                assert(rest_order[q] == order[q + 1]);
                assert(order[k] != order[q + 1]);
            }
        }
        assert forall|j: int| 0 <= j < n implies #[trigger] lists(rest_order, j) by {
            assert(lists(order, j));
            let k0 = choose|k0: int| 0 <= k0 < order.len() && #[trigger] order[k0] == j;
            if k0 < k {
                assert(rest_order[k0] == j);
            } else {
                assert(k0 != k);
                assert(rest_order[k0 - 1] == j);
            }
        }
        assert forall|a: int, b: int| 0 <= a < b < rest_order.len() implies #[trigger] rest_order[a] != #[trigger] rest_order[b] by {
            let a0 = if a < k { a } else { a + 1 };
            let b0 = if b < k { b } else { b + 1 };
            assert(rest_order[a] == order[a0]);
            assert(rest_order[b] == order[b0]);
            assert(order[a0] != order[b0]);
        }
        lemma_rearranged_items(rest_items, rest_order);
        assert(picked(rest_items, rest_order) =~= p.remove(k));
        assert(p[k] == items[n]);
        assert(rest_items.push(items[n]) =~= items);
        assert(p.to_multiset() =~= items.to_multiset()) by {
            assert(p.remove(k).to_multiset() == p.to_multiset().remove(items[n]));
            assert(p.to_multiset().count(items[n]) > 0);
        }
    }
}

/// Text order with ties is a total order.
proof fn lemma_text_order_total()
    ensures
        total_ordering(text_order()),
{
    let r = text_order();
    assert forall|x: Seq<char>| #[trigger] r(x, x) by {}
    assert forall|x: Seq<char>, y: Seq<char>| #[trigger] r(x, y) && #[trigger] r(y, x) implies x == y by {
        if x != y {
            lemma_text_lt_asymmetric(x, y);
        }
    }
    assert forall|x: Seq<char>, y: Seq<char>, z: Seq<char>| #[trigger] r(x, y) && #[trigger] r(y, z) implies r(x, z) by {
        if x != y && y != z {
            lemma_text_lt_transitive(x, y, z);
        }
    }
    assert forall|x: Seq<char>, y: Seq<char>| #[trigger] r(x, y) || #[trigger] r(y, x) by {
        lemma_text_lt_total(x, y);
    }
}

/// A stable order lists the texts sorted.
pub proof fn lemma_stable_order_sorted(keys: Seq<Seq<char>>, order: Seq<usize>)
    requires
        is_stable_order(keys, order),
    ensures
        sorted_by(picked(keys, order), text_order()),
        rearranges(order, keys.len() as int),
{
    lemma_stable_order_distinct(keys, order);
    let p = picked(keys, order);
    assert forall|a: int, b: int| 0 <= a < b < p.len() implies #[trigger] text_order()(p[a], p[b]) by {
        assert(precedes(keys, order[a] as int, order[b] as int));
    }
}

/// Texts put in stable order come out the same whatever order they came in:
/// two lists holding the same texts, each as often, give the same sorted
/// list.
pub proof fn lemma_stable_order_same_texts(
    keys1: Seq<Seq<char>>,
    keys2: Seq<Seq<char>>,
    order1: Seq<usize>,
    order2: Seq<usize>,
)
    requires
        keys1.to_multiset() == keys2.to_multiset(),
        is_stable_order(keys1, order1),
        is_stable_order(keys2, order2),
    ensures
        picked(keys1, order1) == picked(keys2, order2),
{
    lemma_stable_order_sorted(keys1, order1);
    lemma_stable_order_sorted(keys2, order2);
    lemma_rearranged_items(keys1, order1);
    lemma_rearranged_items(keys2, order2);
    lemma_text_order_total();
    vstd::seq_lib::lemma_sorted_unique(picked(keys1, order1), picked(keys2, order2), text_order());
}

} // verus!
