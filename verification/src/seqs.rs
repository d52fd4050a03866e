//! Sequences of values and of their views.

use vstd::prelude::*;

verus! {

/// The views of the items of a sequence.
pub open spec fn views<T: View>(items: Seq<T>) -> Seq<T::V> {
    items.map_values(|item: T| item@)
}

/// The view of what an option holds.
pub open spec fn view_of_option<T: View>(item: Option<T>) -> Option<T::V> {
    match item {
        Some(item) => Some(item@),
        None => None,
    }
}

/// The first items, at most `limit` of them.
pub open spec fn at_most<T>(items: Seq<T>, limit: int) -> Seq<T> {
    if items.len() <= limit {
        items
    } else {
        items.take(limit)
    }
}

/// The items without repetitions, in the order of their first occurrences.
pub open spec fn firsts<T>(items: Seq<T>) -> Seq<T>
    decreases items.len(),
{
    if items.len() == 0 {
        items
    } else if items.drop_last().contains(items.last()) {
        firsts(items.drop_last())
    } else {
        firsts(items.drop_last()).push(items.last())
    }
}

/// How many times an item occurs.
pub open spec fn occurrences<T>(items: Seq<T>, item: T) -> nat {
    items.filter(|other: T| other == item).len()
}

pub proof fn lemma_views_push<T: View>(items: Seq<T>, item: T)
    ensures
        views(items.push(item)) == views(items).push(item@),
{
    assert(views(items.push(item)) =~= views(items).push(item@));
}

pub proof fn lemma_views_append<T: View>(a: Seq<T>, b: Seq<T>)
    ensures
        views(a + b) == views(a) + views(b),
{
    assert(views(a + b) =~= views(a) + views(b));
}

pub proof fn lemma_filter_push<T>(items: Seq<T>, item: T, keep: spec_fn(T) -> bool)
    ensures
        items.push(item).filter(keep) == (if keep(item) {
            items.filter(keep).push(item)
        } else {
            items.filter(keep)
        }),
{
    reveal(Seq::filter);
    assert(items.push(item).drop_last() =~= items);
}

pub proof fn lemma_firsts_push<T>(items: Seq<T>, item: T)
    ensures
        firsts(items.push(item)) == (if items.contains(item) {
            firsts(items)
        } else {
            firsts(items).push(item)
        }),
{
    assert(items.push(item).drop_last() =~= items);
}

pub proof fn lemma_occurrences_push<T>(items: Seq<T>, item: T, other: T)
    ensures
        occurrences(items.push(item), other) == occurrences(items, other) + (if item == other {
            1nat
        } else {
            0nat
        }),
        occurrences(items, other) <= items.len(),
{
    lemma_filter_push(items, item, |x: T| x == other);
    items.lemma_filter_len(|x: T| x == other);
}

pub proof fn lemma_occurrences_absent<T>(items: Seq<T>, item: T)
    requires
        !items.contains(item),
    ensures
        occurrences(items, item) == 0,
{
    let keep = |x: T| x == item;
    if items.filter(keep).len() > 0 {
        items.lemma_filter_pred(keep, 0);
        items.lemma_filter_contains_rev(keep, items.filter(keep)[0]);
    }
}

pub proof fn lemma_firsts_contained<T>(items: Seq<T>, i: int)
    requires
        0 <= i < firsts(items).len(),
    ensures
        items.contains(firsts(items)[i]),
    decreases items.len(),
{
    if items.len() > 0 {
        let front = items.drop_last();
        if i < firsts(front).len() {
            lemma_firsts_contained(front, i);
            let k = choose|k: int| 0 <= k < front.len() && front[k] == firsts(front)[i];
            assert(items[k] == firsts(front)[i]);
        } else {
            assert(items[items.len() - 1] == items.last());
        }
    }
}

pub proof fn lemma_filter_all<T>(items: Seq<T>, keep: spec_fn(T) -> bool)
    requires
        forall|i: int| 0 <= i < items.len() ==> keep(#[trigger] items[i]),
    ensures
        items.filter(keep) == items,
    decreases items.len(),
{
    reveal(Seq::filter);
    if items.len() > 0 {
        let front = items.drop_last();
        assert forall|i: int| 0 <= i < front.len() implies keep(#[trigger] front[i]) by {
            assert(front[i] == items[i]);
        }
        lemma_filter_all(front, keep);
        assert(keep(items[items.len() - 1]));
        assert(front.push(items.last()) =~= items);
    }
}

pub proof fn lemma_filter_none<T>(items: Seq<T>, keep: spec_fn(T) -> bool)
    requires
        forall|i: int| 0 <= i < items.len() ==> !keep(#[trigger] items[i]),
    ensures
        items.filter(keep) == Seq::<T>::empty(),
{
    if items.filter(keep).len() > 0 {
        items.lemma_filter_pred(keep, 0);
        items.lemma_filter_contains_rev(keep, items.filter(keep)[0]);
    }
    assert(items.filter(keep) =~= Seq::empty());
}

} // verus!
