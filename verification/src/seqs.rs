//! Facts about sequences that the other modules share.

use vstd::prelude::*;

verus! {

/// The values of a sequence's items, in order.
pub open spec fn values<T: DeepView>(items: Seq<T>) -> Seq<T::V> {
    Seq::new(items.len(), |i: int| items[i].deep_view())
}

/// The values of a sequence with one more item are the values of the
/// sequence with the value of that item.
pub proof fn lemma_values_push<T: DeepView>(items: Seq<T>, last: T)
    ensures
        values(items.push(last)) == values(items).push(last.deep_view()),
{
    assert(values(items.push(last)) =~= values(items).push(last.deep_view()));
}

/// What is left of a sequence without duplicates, after a filter, has no
/// duplicates either.
pub proof fn lemma_filter_no_duplicates<A>(items: Seq<A>, keep: spec_fn(A) -> bool)
    requires
        items.no_duplicates(),
    ensures
        items.filter(keep).no_duplicates(),
    decreases items.len(),
{
    reveal(Seq::filter);
    if items.len() > 0 {
        let front = items.drop_last();
        lemma_filter_no_duplicates(front, keep);
        if keep(items.last()) {
            let kept = front.filter(keep);
            assert forall|i: int| 0 <= i < kept.len() implies kept[i] != items.last() by {
                if kept[i] == items.last() {
                    assert(kept.contains(items.last()));
                    front.lemma_filter_contains_rev(keep, items.last());
                    let j = choose|j: int| 0 <= j < front.len() && front[j] == items.last();
                    assert(items[j] == items[items.len() - 1]);
                }
            }
        }
    }
}

/// Taking an item out of a sequence takes its value out of the values.
pub proof fn lemma_values_remove<T: DeepView>(items: Seq<T>, i: int)
    requires
        0 <= i < items.len(),
    ensures
        values(items.remove(i)) == values(items).remove(i),
{
    assert(values(items.remove(i)) =~= values(items).remove(i));
}

/// Replacing an item of a sequence replaces its value among the values.
pub proof fn lemma_values_update<T: DeepView>(items: Seq<T>, i: int, item: T)
    requires
        0 <= i < items.len(),
    ensures
        values(items.update(i, item)) == values(items).update(i, item.deep_view()),
{
    assert(values(items.update(i, item)) =~= values(items).update(i, item.deep_view()));
}

/// The values of two sequences joined are their values joined.
pub proof fn lemma_values_add<T: DeepView>(front: Seq<T>, back: Seq<T>)
    ensures
        values(front + back) == values(front) + values(back),
{
    assert(values(front + back) =~= values(front) + values(back));
}

/// A sequence without its first item is the sequence with the item at 0
/// removed.
pub proof fn lemma_remove_first<A>(items: Seq<A>)
    requires
        items.len() > 0,
    ensures
        items.remove(0) == items.drop_first(),
{
    assert(items.remove(0) =~= items.drop_first());
}

} // verus!
