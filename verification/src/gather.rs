//! Gathering labelled items into groups, one per distinct label, in
//! increasing label order, as filling a `BTreeMap<String, Vec<_>>` does.
use vstd::prelude::*;
use crate::text::{chars_equal, lemma_text_lt_irreflexive, lemma_text_lt_total, lemma_text_lt_transitive, text_less, text_lt};

verus! {

/// The items that carry `label`, in their order.
pub open spec fn members<T>(items: Seq<(Seq<char>, T)>, label: Seq<char>) -> Seq<T>
    decreases items.len(),
{
    if items.len() == 0 {
        Seq::<T>::empty()
    } else {
        let rest = members(items.drop_last(), label);
        if items.last().0 == label {
            rest.push(items.last().1)
        } else {
            rest
        }
    }
}

/// Some item carries `label`.
pub open spec fn carried<T>(items: Seq<(Seq<char>, T)>, label: Seq<char>) -> bool {
    exists|i: int| 0 <= i < items.len() && (#[trigger] items[i]).0 == label
}

/// Some group has `label`.
pub open spec fn has_group<T>(groups: Seq<(Seq<char>, Seq<T>)>, label: Seq<char>) -> bool {
    exists|j: int| 0 <= j < groups.len() && (#[trigger] groups[j]).0 == label
}

/// `groups` holds one group per distinct label of `items`, in increasing
/// label order, each with the items carrying its label, in their order.
pub open spec fn is_gathering<T>(items: Seq<(Seq<char>, T)>, groups: Seq<(Seq<char>, Seq<T>)>) -> bool {
    &&& forall|j: int| 0 <= j < groups.len() ==> (#[trigger] groups[j]).1 == members(items, groups[j].0)
    &&& forall|a: int, b: int| 0 <= a < b < groups.len() ==> text_lt((#[trigger] groups[a]).0, (#[trigger] groups[b]).0)
    &&& forall|i: int| 0 <= i < items.len() ==> has_group(groups, (#[trigger] items[i]).0)
    &&& forall|j: int| 0 <= j < groups.len() ==> carried(items, (#[trigger] groups[j]).0)
}

/// Labelled items with their labels as text.
pub open spec fn labelled_view<T>(items: Seq<(Vec<char>, T)>) -> Seq<(Seq<char>, T)> {
    items.map_values(|p: (Vec<char>, T)| (p.0@, p.1))
}

/// Groups with their labels and items as sequences.
pub open spec fn groups_view<T>(groups: Seq<(Vec<char>, Vec<T>)>) -> Seq<(Seq<char>, Seq<T>)> {
    groups.map_values(|g: (Vec<char>, Vec<T>)| (g.0@, g.1@))
}

proof fn lemma_members_push<T>(items: Seq<(Seq<char>, T)>, x: (Seq<char>, T), label: Seq<char>)
    ensures
        members(items.push(x), label) == (if x.0 == label {
            members(items, label).push(x.1)
        } else {
            members(items, label)
        }),
{
    assert(items.push(x).drop_last() =~= items);
}

/// Members of a group are members of the items: with every item's payload
/// below `bound`, so is every member.
pub proof fn lemma_members_bounded(items: Seq<(Seq<char>, usize)>, label: Seq<char>, bound: int)
    requires
        forall|q: int| 0 <= q < items.len() ==> (#[trigger] items[q]).1 < bound,
    ensures
        forall|k: int| 0 <= k < members(items, label).len() ==> #[trigger] members(items, label)[k] < bound,
    decreases items.len(),
{
    if items.len() > 0 {
        let rest = items.drop_last();
        assert forall|q: int| 0 <= q < rest.len() implies (#[trigger] rest[q]).1 < bound by {
            assert(rest[q] == items[q]);
        }
        lemma_members_bounded(rest, label, bound);
        assert(items[items.len() - 1].1 < bound);
        let m = members(items, label);
        assert forall|k: int| 0 <= k < m.len() implies #[trigger] m[k] < bound by {
            if k < members(rest, label).len() {
                assert(m[k] == members(rest, label)[k]);
            } else {
                assert(m[k] == items.last().1);
            }
        }
    }
}

/// The items carrying `label` are the payloads of the items whose label it
/// is, in their order.
proof fn lemma_members_filter<T>(items: Seq<(Seq<char>, T)>, label: Seq<char>)
    ensures
        members(items, label) == items.filter(|p: (Seq<char>, T)| p.0 == label).map_values(|p: (Seq<char>, T)| p.1),
    decreases items.len(),
{
    let pred = |p: (Seq<char>, T)| p.0 == label;
    if items.len() == 0 {
        reveal(Seq::filter);
        assert(items.filter(pred) =~= Seq::<(Seq<char>, T)>::empty());
        assert(items.filter(pred).map_values(|p: (Seq<char>, T)| p.1) =~= Seq::<T>::empty());
    } else {
        let rest = items.drop_last();
        lemma_members_filter(rest, label);
        assert(rest.push(items.last()) =~= items);
        rest.lemma_filter_push(items.last(), pred);
        assert(items.filter(pred).map_values(|p: (Seq<char>, T)| p.1) =~= if items.last().0 == label {
            rest.filter(pred).map_values(|p: (Seq<char>, T)| p.1).push(items.last().1)
        } else {
            rest.filter(pred).map_values(|p: (Seq<char>, T)| p.1)
        });
    }
}

/// Gathering makes one group per label the items carry, in increasing
/// label order, none empty, each holding the payloads of exactly the items
/// with its label, in their order.
pub proof fn lemma_gathering<T>(items: Seq<(Seq<char>, T)>, groups: Seq<(Seq<char>, Seq<T>)>)
    requires
        is_gathering(items, groups),
    ensures
        forall|j: int| 0 <= j < groups.len() ==> (#[trigger] groups[j]).1 == items.filter(
            |p: (Seq<char>, T)| p.0 == groups[j].0,
        ).map_values(|p: (Seq<char>, T)| p.1),
        forall|j: int| 0 <= j < groups.len() ==> (#[trigger] groups[j]).1.len() > 0,
        forall|a: int, b: int| 0 <= a < b < groups.len() ==> text_lt((#[trigger] groups[a]).0, (#[trigger] groups[b]).0),
{
    assert forall|j: int| 0 <= j < groups.len() implies (#[trigger] groups[j]).1 == items.filter(
        |p: (Seq<char>, T)| p.0 == groups[j].0,
    ).map_values(|p: (Seq<char>, T)| p.1) && groups[j].1.len() > 0 by {
        let label = groups[j].0;
        lemma_members_filter(items, label);
        let pred = |p: (Seq<char>, T)| p.0 == label;
        assert(groups[j].1 == members(items, label));
        assert(carried(items, label));
        let i = choose|i: int| 0 <= i < items.len() && (#[trigger] items[i]).0 == label;
        items.lemma_filter_contains(pred, i);
        assert(items.filter(pred).len() > 0);
        assert(items.filter(pred).map_values(|p: (Seq<char>, T)| p.1).len() > 0);
        assert(pred =~= (|p: (Seq<char>, T)| p.0 == groups[j].0));
    }
}

proof fn lemma_members_none<T>(items: Seq<(Seq<char>, T)>, label: Seq<char>)
    requires
        !carried(items, label),
    ensures
        members(items, label) == Seq::<T>::empty(),
    decreases items.len(),
{
    if items.len() > 0 {
        let rest = items.drop_last();
        assert(!carried(rest, label)) by {
            if carried(rest, label) {
                let i = choose|i: int| 0 <= i < rest.len() && (#[trigger] rest[i]).0 == label;
                assert(items[i] == rest[i]);
            }
        }
        lemma_members_none(rest, label);
        assert(items[items.len() - 1].0 != label);
    }
}

/// Where a new label goes among sorted labels: below it before `p`, above
/// it after `p`, and at `p` itself either equal (`found`) or above.
proof fn lemma_label_position<T>(groups: Seq<(Seq<char>, Seq<T>)>, label: Seq<char>, p: int, found: bool)
    requires
        0 <= p <= groups.len(),
        forall|a: int, b: int| 0 <= a < b < groups.len() ==> text_lt((#[trigger] groups[a]).0, (#[trigger] groups[b]).0),
        forall|a: int| 0 <= a < p ==> text_lt((#[trigger] groups[a]).0, label),
        p < groups.len() ==> !text_lt(groups[p].0, label),
        found == (p < groups.len() && groups[p].0 == label),
    ensures
        forall|b: int| p <= b < groups.len() && !(found && b == p) ==> text_lt(label, (#[trigger] groups[b]).0),
        forall|b: int| 0 <= b < groups.len() && !(found && b == p) ==> (#[trigger] groups[b]).0 != label,
{
    assert forall|b: int| p <= b < groups.len() && !(found && b == p) implies text_lt(label, (#[trigger] groups[b]).0) by {
        lemma_text_lt_total(label, groups[p].0);
        if b > p && text_lt(label, groups[p].0) {
            lemma_text_lt_transitive(label, groups[p].0, groups[b].0);
        }
    }
    assert forall|b: int| 0 <= b < groups.len() && !(found && b == p) implies (#[trigger] groups[b]).0 != label by {
        lemma_text_lt_irreflexive(label);
    }
}

/// Adds one labelled item to the groups of the items seen before it.
fn add_item<T>(
    groups: &mut Vec<(Vec<char>, Vec<T>)>,
    label: Vec<char>,
    item: T,
    Ghost(seen): Ghost<Seq<(Seq<char>, T)>>,
)
    requires
        is_gathering(seen, groups_view(old(groups)@)),
    ensures
        is_gathering(seen.push((label@, item)), groups_view(final(groups)@)),
{
    let ghost old_groups = groups_view(groups@);
    let ghost lab = label@;
    let ghost x = (label@, item);
    let ghost after = seen.push(x);
    let mut p: usize = 0;
    while p < groups.len() && text_less(&groups[p].0, &label)
        invariant
            p <= groups@.len(),
            groups_view(groups@) == old_groups,
            lab == label@,
            forall|a: int| 0 <= a < p ==> text_lt((#[trigger] old_groups[a]).0, lab),
        decreases groups@.len() - p,
    {
        assert(old_groups[p as int].0 == groups@[p as int].0@);
        p = p + 1;
    }
    let found = p < groups.len() && chars_equal(&groups[p].0, &label);
    proof {
        if p < groups@.len() {
            assert(old_groups[p as int].0 == groups@[p as int].0@);
        }
        lemma_label_position(old_groups, lab, p as int, found);
    }
    if found {
        let (l, mut vs) = groups.remove(p);
        vs.push(item);
        groups.insert(p, (l, vs));
    } else {
        proof {
            assert(!carried(seen, lab)) by {
                if carried(seen, lab) {
                    let i = choose|i: int| 0 <= i < seen.len() && (#[trigger] seen[i]).0 == lab;
                    assert(has_group(old_groups, seen[i].0));
                    let g = choose|g: int| 0 <= g < old_groups.len() && (#[trigger] old_groups[g]).0 == lab;
                }
            }
            lemma_members_none(seen, lab);
        }
        let mut vs: Vec<T> = Vec::new();
        vs.push(item);
        groups.insert(p, (label, vs));
    }
    proof {
        let new_groups = groups_view(groups@);
        assert(new_groups.len() == if found { old_groups.len() } else { old_groups.len() + 1 });
        assert forall|j: int| 0 <= j < new_groups.len() implies #[trigger] new_groups[j] == (if j == p {
            new_groups[j]
        } else if found || j < p {
            old_groups[j]
        } else {
            old_groups[j - 1]
        }) by {
            if j != p {
                if found || j < p {
                    assert(groups@[j] == old(groups)@[j]);
                } else {
                    assert(groups@[j] == old(groups)@[j - 1]);
                }
            }
        }
        assert(new_groups[p as int].0 == lab);
        assert forall|j: int| 0 <= j < new_groups.len() implies (#[trigger] new_groups[j]).1 == members(after, new_groups[j].0) by {
            lemma_members_push(seen, x, new_groups[j].0);
            if j == p && !found {
                assert(new_groups[j].1 =~= Seq::<T>::empty().push(item));
            } else if j == p {
                assert(new_groups[j].1 == old_groups[j].1.push(item));
            }
        }
        assert forall|a: int, b: int| 0 <= a < b < new_groups.len() implies text_lt((#[trigger] new_groups[a]).0, (#[trigger] new_groups[b]).0) by {
            if !found && a < p && b > p {
                lemma_text_lt_transitive(old_groups[a].0, lab, old_groups[b - 1].0);
            }
        }
        assert forall|i: int| 0 <= i < after.len() implies has_group(new_groups, (#[trigger] after[i]).0) by {
            if i == seen.len() {
                assert(new_groups[p as int].0 == after[i].0);
            } else {
                assert(after[i] == seen[i]);
                assert(has_group(old_groups, seen[i].0));
                let g = choose|g: int| 0 <= g < old_groups.len() && (#[trigger] old_groups[g]).0 == seen[i].0;
                if found || g < p {
                    assert(new_groups[g].0 == seen[i].0);
                } else {
                    assert(new_groups[g + 1].0 == seen[i].0);
                }
            }
        }
        assert forall|j: int| 0 <= j < new_groups.len() implies carried(after, (#[trigger] new_groups[j]).0) by {
            if j == p && !found {
                assert(after[seen.len() as int].0 == new_groups[j].0);
            } else {
                let g = if found || j < p { j } else { j - 1 };
                assert(new_groups[j].0 == old_groups[g].0);
                assert(carried(seen, old_groups[g].0));
                let w = choose|w: int| 0 <= w < seen.len() && (#[trigger] seen[w]).0 == old_groups[g].0;
                assert(after[w] == seen[w]);
            }
        }
    }
}

/// Gathers labelled items into groups: one per distinct label, in
/// increasing label order, each with its items in their order.
pub fn gather<T>(items: Vec<(Vec<char>, T)>) -> (groups: Vec<(Vec<char>, Vec<T>)>)
    ensures
        is_gathering(labelled_view(items@), groups_view(groups@)),
{
    let ghost original = labelled_view(items@);
    let ghost raw = items@;
    let mut groups: Vec<(Vec<char>, Vec<T>)> = Vec::new();
    assert(groups_view(groups@) =~= Seq::<(Seq<char>, Seq<T>)>::empty());
    assert(original.take(0) =~= Seq::<(Seq<char>, T)>::empty());
    for pair in it: items
        invariant
            it.seq() == raw,
            original == labelled_view(raw),
            is_gathering(original.take(it.index() as int), groups_view(groups@)),
    {
        let ghost i = it.index();
        let (label, item) = pair;
        assert(original.take(i + 1) =~= original.take(i as int).push((label@, item)));
        add_item(&mut groups, label, item, Ghost(original.take(i as int)));
    }
    assert(original.take(original.len() as int) =~= original);
    groups
}

} // verus!
