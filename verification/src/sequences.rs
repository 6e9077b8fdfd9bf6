//! Facts about filtered sequences that the registries rest on.

use vstd::prelude::*;

verus! {

/// Whether `apart` holds of every two items of `items`, the earlier one
/// first.
pub open spec fn pairwise<A>(items: Seq<A>, apart: spec_fn(A, A) -> bool) -> bool {
    forall|i: int, j: int| 0 <= i < j < items.len() ==> #[trigger] apart(items[i], items[j])
}

/// What is left after filtering came from the sequence that was filtered.
pub(crate) proof fn lemma_filter_origin<A>(items: Seq<A>, keep: spec_fn(A) -> bool, i: int) -> (at:
    int)
    requires
        0 <= i < items.filter(keep).len(),
    ensures
        0 <= at < items.len(),
        items[at] == items.filter(keep)[i],
        keep(items[at]),
{
    let kept = items.filter(keep);
    items.lemma_filter_pred(keep, i);
    assert(kept.contains(kept[i]));
    items.lemma_filter_contains_rev(keep, kept[i]);
    choose|at: int| 0 <= at < items.len() && items[at] == kept[i]
}

/// An item that the filter keeps is found in what is left.
pub(crate) proof fn lemma_filter_keeps<A>(items: Seq<A>, keep: spec_fn(A) -> bool, i: int) -> (at:
    int)
    requires
        0 <= i < items.len(),
        keep(items[i]),
    ensures
        0 <= at < items.filter(keep).len(),
        items.filter(keep)[at] == items[i],
{
    items.lemma_filter_contains(keep, i);
    choose|at: int| 0 <= at < items.filter(keep).len() && items.filter(keep)[at] == items[i]
}

/// Filtering keeps the order: what holds of every two items, the earlier
/// one first, holds of every two items that are left.
pub(crate) proof fn lemma_filter_pairwise<A>(
    items: Seq<A>,
    keep: spec_fn(A) -> bool,
    apart: spec_fn(A, A) -> bool,
)
    requires
        pairwise(items, apart),
    ensures
        pairwise(items.filter(keep), apart),
    decreases items.len(),
{
    reveal(Seq::filter);
    if items.len() > 0 {
        let rest = items.drop_last();
        let last = items.last();
        let kept = rest.filter(keep);
        assert forall|i: int, j: int| 0 <= i < j < rest.len() implies #[trigger] apart(
            rest[i],
            rest[j],
        ) by {
            assert(apart(items[i], items[j]));
        }
        lemma_filter_pairwise(rest, keep, apart);
        if keep(last) {
            let all = items.filter(keep);
            assert(all == kept.push(last));
            assert forall|i: int, j: int| 0 <= i < j < all.len() implies #[trigger] apart(
                all[i],
                all[j],
            ) by {
                if j == kept.len() {
                    let at = lemma_filter_origin(rest, keep, i);
                    assert(apart(items[at], items[items.len() - 1]));
                } else {
                    assert(apart(kept[i], kept[j]));
                }
            }
        }
    }
}

/// How many times `item` occurs in `items`.
pub open spec fn times<A>(items: Seq<A>, item: A) -> nat {
    items.to_multiset().count(item)
}

/// What occurs in a concatenation occurs in its parts, as many times.
pub(crate) proof fn lemma_times_concat<A>(first: Seq<A>, second: Seq<A>, item: A)
    ensures
        times(first + second, item) == times(first, item) + times(second, item),
{
    vstd::seq_lib::lemma_multiset_commutative(first, second);
}

/// What a sequence does not contain occurs in it no times.
pub(crate) proof fn lemma_times_absent<A>(items: Seq<A>, item: A)
    requires
        !items.contains(item),
    ensures
        times(items, item) == 0,
{
    items.to_multiset_ensures();
}

/// An item of a sequence without duplicates occurs in it once.
pub(crate) proof fn lemma_times_once<A>(items: Seq<A>, at: int)
    requires
        items.no_duplicates(),
        0 <= at < items.len(),
    ensures
        times(items, items[at]) == 1,
{
    items.to_multiset_ensures();
    items.lemma_multiset_has_no_duplicates();
    assert(items.contains(items[at]));
}

/// What occurs in one part only occurs in the whole as many times as in
/// that part.
pub(crate) proof fn lemma_times_flatten<A>(parts: Seq<Seq<A>>, item: A, at: int)
    requires
        0 <= at < parts.len(),
        forall|k: int| 0 <= k < parts.len() && k != at ==> !(#[trigger] parts[k]).contains(item),
    ensures
        times(parts.flatten(), item) == times(parts[at], item),
    decreases parts.len(),
{
    let rest = parts.drop_last();
    let last = parts.last();
    assert(parts == rest.push(last));
    rest.lemma_flatten_push(last);
    lemma_times_concat(rest.flatten(), last, item);
    if at == parts.len() - 1 {
        lemma_times_flatten_none(rest, item);
    } else {
        assert(!parts[parts.len() - 1].contains(item));
        lemma_times_absent(last, item);
        assert forall|k: int| 0 <= k < rest.len() && k != at implies !(#[trigger] rest[k]).contains(
            item,
        ) by {
            assert(!parts[k].contains(item));
        }
        lemma_times_flatten(rest, item, at);
    }
}

/// What occurs in no part does not occur in the whole.
pub(crate) proof fn lemma_times_flatten_none<A>(parts: Seq<Seq<A>>, item: A)
    requires
        forall|k: int| 0 <= k < parts.len() ==> !(#[trigger] parts[k]).contains(item),
    ensures
        times(parts.flatten(), item) == 0,
    decreases parts.len(),
{
    if parts.len() == 0 {
        assert(parts.flatten() == Seq::<A>::empty());
        lemma_times_absent(parts.flatten(), item);
    } else {
        let rest = parts.drop_last();
        let last = parts.last();
        assert(parts == rest.push(last));
        rest.lemma_flatten_push(last);
        lemma_times_concat(rest.flatten(), last, item);
        assert(!parts[parts.len() - 1].contains(item));
        lemma_times_absent(last, item);
        assert forall|k: int| 0 <= k < rest.len() implies !(#[trigger] rest[k]).contains(item) by {
            assert(!parts[k].contains(item));
        }
        lemma_times_flatten_none(rest, item);
    }
}

} // verus!
