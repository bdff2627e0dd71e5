//! Sorting by insertion: items that are neither before nor after one another
//! keep their order.

use vstd::prelude::*;

verus! {

/// What can be sorted.
pub trait Sortable: Sized {
    /// What an item is sorted by.
    type Key;

    /// The value of the item.
    spec fn value(&self) -> Self::Key;

    /// The order: whether the first value is to stand before the second.
    spec fn order() -> spec_fn(Self::Key, Self::Key) -> bool;

    /// Whether the item is to stand before the other.
    fn goes_before(&self, other: &Self) -> (r: bool)
        ensures
            r == Self::order()(self.value(), other.value()),
    ;

    /// A copy of the item.
    fn copied(&self) -> (r: Self)
        ensures
            r.value() == self.value(),
    ;
}

/// The sorted list with `v` at its place, after all that it is not to stand before.
pub open spec fn placed<V>(list: Seq<V>, v: V, order: spec_fn(V, V) -> bool) -> Seq<V>
    decreases list.len(),
{
    if list.len() > 0 && order(v, list.last()) {
        placed(list.drop_last(), v, order).push(list.last())
    } else {
        list.push(v)
    }
}

/// The values in order.
pub open spec fn sorted<V>(values: Seq<V>, order: spec_fn(V, V) -> bool) -> Seq<V>
    decreases values.len(),
{
    if values.len() == 0 {
        values
    } else {
        placed(sorted(values.drop_last(), order), values.last(), order)
    }
}

/// The values of items.
pub open spec fn values_of<T: Sortable>(items: Seq<T>) -> Seq<T::Key> {
    Seq::new(items.len(), |i: int| items[i].value())
}

fn place<T: Sortable>(list: &mut Vec<T>, item: T)
    ensures
        values_of(final(list)@) == placed(values_of(old(list)@), item.value(), T::order()),
{
    let ghost all = values_of(list@);
    let ghost order = T::order();
    let ghost v = item.value();
    let n: usize = list.len();
    let mut i: usize = n;
    assert(all.take(n as int) =~= all);
    assert(placed(all.take(n as int), v, order) + all.skip(n as int) =~= placed(all, v, order));
    while i > 0 && item.goes_before(&list[i - 1])
        invariant
            i <= n == list@.len(),
            all == values_of(list@),
            list@ == old(list)@,
            order == T::order(),
            v == item.value(),
            placed(all.take(i as int), v, order) + all.skip(i as int) == placed(all, v, order),
        decreases i,
    {
        proof {
            let part = all.take(i as int);
            assert(part.last() == all[i - 1]);
            assert(part.drop_last() =~= all.take(i - 1));
            let inner = placed(all.take(i - 1), v, order);
            assert(placed(part, v, order) == inner.push(all[i - 1]));
            assert(inner.push(all[i - 1]) + all.skip(i as int) =~= inner + all.skip(i - 1));
        }
        i = i - 1;
    }
    proof {
        let part = all.take(i as int);
        assert(i > 0 ==> part.last() == all[i - 1]);
        assert(placed(part, v, order) == part.push(v));
    }
    list.insert(i, item);
    assert(values_of(list@) =~= all.take(i as int).push(v) + all.skip(i as int));
}

/// The items in order.
pub fn sort<T: Sortable>(items: &Vec<T>) -> (r: Vec<T>)
    ensures
        values_of(r@) == sorted(values_of(items@), T::order()),
{
    let ghost all = values_of(items@);
    let mut out: Vec<T> = Vec::new();
    let mut i: usize = 0;
    assert(values_of(out@) =~= sorted(all.take(0), T::order()));
    while i < items.len()
        invariant
            i <= items.len(),
            all == values_of(items@),
            values_of(out@) == sorted(all.take(i as int), T::order()),
        decreases items.len() - i,
    {
        assert(all.take(i + 1).drop_last() =~= all.take(i as int));
        place(&mut out, items[i].copied());
        i = i + 1;
    }
    assert(all.take(i as int) =~= all);
    out
}

proof fn lemma_placed<V>(list: Seq<V>, v: V, order: spec_fn(V, V) -> bool)
    ensures
        placed(list, v, order).to_multiset() == list.to_multiset().insert(v),
    decreases list.len(),
{
    broadcast use vstd::seq_lib::group_to_multiset_ensures;

    if list.len() > 0 && order(v, list.last()) {
        let before = list.drop_last();
        lemma_placed(before, v, order);
        assert(before.push(list.last()) =~= list);
        assert(placed(list, v, order).to_multiset() =~= list.to_multiset().insert(v));
    }
}

/// Sorting keeps each value as often as it is there.
pub proof fn law_sorting_keeps_values<V>(values: Seq<V>, order: spec_fn(V, V) -> bool)
    ensures
        sorted(values, order).to_multiset() == values.to_multiset(),
        sorted(values, order).len() == values.len(),
        forall|v: V| #[trigger] sorted(values, order).contains(v) <==> values.contains(v),
    decreases values.len(),
{
    broadcast use vstd::seq_lib::group_to_multiset_ensures;

    if values.len() > 0 {
        let before = values.drop_last();
        law_sorting_keeps_values(before, order);
        lemma_placed(sorted(before, order), values.last(), order);
        assert(before.push(values.last()) =~= values);
    }
    let after = sorted(values, order);
    assert(after.len() == after.to_multiset().len() && values.len() == values.to_multiset().len());
    assert forall|v: V| #[trigger] after.contains(v) <==> values.contains(v) by {
        assert(after.contains(v) <==> after.to_multiset().count(v) > 0);
        assert(values.contains(v) <==> values.to_multiset().count(v) > 0);
    }
}

/// The order is one to sort by: no two values are each before the other, and
/// not being before is transitive.
pub open spec fn is_order<V>(order: spec_fn(V, V) -> bool) -> bool {
    &&& forall|a: V, b: V| #[trigger] order(a, b) ==> !order(b, a)
    &&& forall|a: V, b: V, c: V|
        !(#[trigger] order(b, a)) && !(#[trigger] order(c, b)) ==> !order(c, a)
}

/// No value stands before one that is to stand before it.
pub open spec fn in_order<V>(list: Seq<V>, order: spec_fn(V, V) -> bool) -> bool {
    forall|i: int, j: int|
        0 <= i < j < list.len() ==> !order(#[trigger] list[j], #[trigger] list[i])
}

proof fn lemma_placed_in_order<V>(list: Seq<V>, v: V, order: spec_fn(V, V) -> bool)
    requires
        is_order(order),
        in_order(list, order),
    ensures
        in_order(placed(list, v, order), order),
        forall|i: int|
            0 <= i < placed(list, v, order).len() ==> (#[trigger] placed(list, v, order)[i]) == v
                || list.contains(placed(list, v, order)[i]),
    decreases list.len(),
{
    let after = placed(list, v, order);
    if list.len() > 0 && order(v, list.last()) {
        let before = list.drop_last();
        let last = list.last();
        assert forall|i: int, j: int| 0 <= i < j < before.len() implies !order(
            #[trigger] before[j],
            #[trigger] before[i],
        ) by {
            assert(before[i] == list[i] && before[j] == list[j]);
        }
        lemma_placed_in_order(before, v, order);
        let inner = placed(before, v, order);
        assert forall|i: int| 0 <= i < after.len() implies (#[trigger] after[i]) == v
            || list.contains(after[i]) by {
            if i == inner.len() {
                assert(list[list.len() - 1] == after[i]);
            } else if inner[i] != v {
                assert(list[before.index_of(inner[i])] == after[i]);
            }
        }
        assert forall|i: int, j: int| 0 <= i < j < after.len() implies !order(
            #[trigger] after[j],
            #[trigger] after[i],
        ) by {
            if j < inner.len() {
                assert(after[i] == inner[i] && after[j] == inner[j]);
            } else if inner[i] != v {
                let k = before.index_of(inner[i]);
                assert(list[k] == inner[i]);
                assert(!order(list[list.len() - 1], list[k]));
            }
        }
    } else {
        assert forall|i: int| 0 <= i < after.len() implies (#[trigger] after[i]) == v
            || list.contains(after[i]) by {
            if i < list.len() {
                assert(list[i] == after[i]);
            }
        }
        assert forall|i: int, j: int| 0 <= i < j < after.len() implies !order(
            #[trigger] after[j],
            #[trigger] after[i],
        ) by {
            if j < list.len() {
                assert(after[i] == list[i] && after[j] == list[j]);
            } else if i < list.len() - 1 {
                assert(!order(list[list.len() - 1], list[i]));
                assert(!order(v, list[list.len() - 1]));
            }
        }
    }
}

/// What is sorted is in order.
pub proof fn law_sorting_puts_in_order<V>(values: Seq<V>, order: spec_fn(V, V) -> bool)
    requires
        is_order(order),
    ensures
        in_order(sorted(values, order), order),
    decreases values.len(),
{
    if values.len() > 0 {
        law_sorting_puts_in_order(values.drop_last(), order);
        lemma_placed_in_order(sorted(values.drop_last(), order), values.last(), order);
    }
}

} // verus!
