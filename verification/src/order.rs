//! Restoring the order of the declaration: indexed values sorted by their
//! index.

use vstd::prelude::*;
use crate::format::{Indexed, IndexedModel};

verus! {

/// What each of the indexed values says.
pub open spec fn indexed_views<T: View>(items: Seq<&Indexed<T>>) -> Seq<IndexedModel<T::V>> {
    Seq::new(items.len(), |i: int| IndexedModel { index: items[i].index, value: items[i].value@ })
}

/// What each of the collected indexed values says.
pub open spec fn collected_views<T: View>(items: Seq<(&Indexed<T>,)>) -> Seq<
    IndexedModel<T::V>,
> {
    Seq::new(
        items.len(),
        |i: int| IndexedModel { index: items[i].0.index, value: items[i].0.value@ },
    )
}

/// The values without their indices.
pub open spec fn values<M>(items: Seq<IndexedModel<M>>) -> Seq<M> {
    Seq::new(items.len(), |i: int| items[i].value)
}

/// No value stands before one of a smaller index.
pub open spec fn ascending<M>(items: Seq<IndexedModel<M>>) -> bool {
    forall|i: int, j: int| 0 <= i < j < items.len() ==> items[i].index <= items[j].index
}

/// Where a value of the given index goes into a sorted list: behind the last
/// value whose index is not larger.
pub open spec fn slot<M>(sorted: Seq<IndexedModel<M>>, index: u32) -> int
    decreases sorted.len(),
{
    if sorted.len() == 0 {
        0
    } else if sorted.last().index <= index {
        sorted.len() as int
    } else {
        slot(sorted.drop_last(), index)
    }
}

/// The values sorted by index; values of equal index keep their order.
pub open spec fn by_index<M>(items: Seq<IndexedModel<M>>) -> Seq<IndexedModel<M>>
    decreases items.len(),
{
    if items.len() == 0 {
        Seq::empty()
    } else {
        let before = by_index(items.drop_last());
        before.insert(slot(before, items.last().index), items.last())
    }
}

/// The slot lies in the list, everything before it has an index that is not
/// larger, and everything from it on a larger one.
pub proof fn slot_divides<M>(sorted: Seq<IndexedModel<M>>, index: u32)
    requires
        ascending(sorted),
    ensures
        0 <= slot(sorted, index) <= sorted.len(),
        forall|i: int| 0 <= i < slot(sorted, index) ==> sorted[i].index <= index,
        forall|i: int| slot(sorted, index) <= i < sorted.len() ==> sorted[i].index > index,
    decreases sorted.len(),
{
    if sorted.len() > 0 && sorted.last().index > index {
        let shorter = sorted.drop_last();
        assert(ascending(shorter)) by {
            assert forall|i: int, j: int| 0 <= i < j < shorter.len() implies shorter[i].index
                <= shorter[j].index by {
                assert(shorter[i] == sorted[i]);
                assert(shorter[j] == sorted[j]);
            }
        }
        slot_divides(shorter, index);
        assert forall|i: int| 0 <= i < slot(sorted, index) implies sorted[i].index <= index by {
            assert(shorter[i] == sorted[i]);
        }
        assert forall|i: int| slot(sorted, index) <= i < sorted.len() implies sorted[i].index
            > index by {
            if i < shorter.len() {
                assert(shorter[i] == sorted[i]);
            }
        }
    }
}

/// Sorting puts the values in ascending order of their indices and keeps
/// each of them, as often as it was there.
pub proof fn by_index_sorts<M>(items: Seq<IndexedModel<M>>)
    ensures
        ascending(by_index(items)),
        by_index(items).len() == items.len(),
        by_index(items).to_multiset() == items.to_multiset(),
    decreases items.len(),
{
    broadcast use vstd::seq_lib::group_to_multiset_ensures;

    if items.len() == 0 {
        assert(items =~= Seq::empty());
    } else {
        let shorter = items.drop_last();
        let last = items.last();
        let before = by_index(shorter);
        by_index_sorts(shorter);
        slot_divides(before, last.index);
        let at = slot(before, last.index);
        let after = before.insert(at, last);
        assert forall|i: int, j: int| 0 <= i < j < after.len() implies after[i].index
            <= after[j].index by {
            if i < at {
                assert(after[i] == before[i]);
            } else if i > at {
                assert(after[i] == before[i - 1]);
            }
            if j < at {
                assert(after[j] == before[j]);
            } else if j > at {
                assert(after[j] == before[j - 1]);
            }
        }
        assert(items =~= shorter.push(last));
        assert(shorter.push(last).to_multiset() == shorter.to_multiset().insert(last));
        insert_adds_one(before, at, last);
    }
}

/// Inserting a value adds it to what the list holds.
proof fn insert_adds_one<A>(s: Seq<A>, at: int, x: A)
    requires
        0 <= at <= s.len(),
    ensures
        s.insert(at, x).to_multiset() == s.to_multiset().insert(x),
{
    broadcast use vstd::seq_lib::group_to_multiset_ensures;

    let left = s.subrange(0, at);
    let right = s.subrange(at, s.len() as int);
    assert(s =~= left + right);
    assert(s.insert(at, x) =~= left.push(x) + right);
    vstd::seq_lib::lemma_multiset_commutative(left, right);
    vstd::seq_lib::lemma_multiset_commutative(left.push(x), right);
    assert(left.push(x).to_multiset() == left.to_multiset().insert(x));
    assert(s.insert(at, x).to_multiset() =~= s.to_multiset().insert(x));
}

/// Sorting leaves a list in ascending order as it is.
pub proof fn by_index_keeps_sorted<M>(items: Seq<IndexedModel<M>>)
    requires
        ascending(items),
    ensures
        by_index(items) == items,
    decreases items.len(),
{
    if items.len() == 0 {
        assert(items =~= Seq::empty());
    } else {
        let shorter = items.drop_last();
        assert(ascending(shorter)) by {
            assert forall|i: int, j: int| 0 <= i < j < shorter.len() implies shorter[i].index
                <= shorter[j].index by {
                assert(shorter[i] == items[i]);
                assert(shorter[j] == items[j]);
            }
        }
        by_index_keeps_sorted(shorter);
        if shorter.len() > 0 {
            assert(shorter.last() == items[items.len() - 2]);
        }
        assert(slot(shorter, items.last().index) == shorter.len());
        assert(shorter.insert(shorter.len() as int, items.last()) =~= items);
    }
}

/// Sorts the collected values by index; values of equal index keep their order.
pub fn sort_by_index<'a, T: View>(items: &Vec<(&'a Indexed<T>,)>) -> (r: Vec<&'a Indexed<T>>)
    ensures
        indexed_views(r@) == by_index(collected_views(items@)),
{
    let mut out: Vec<&'a Indexed<T>> = Vec::new();
    let mut i: usize = 0;
    proof {
        assert(collected_views(items@.take(0)) =~= Seq::empty());
        assert(indexed_views(out@) =~= Seq::empty());
    }
    while i < items.len()
        invariant
            i <= items.len(),
            indexed_views(out@) == by_index(collected_views(items@.take(i as int))),
            out@.len() == i,
        decreases items.len() - i,
    {
        let item: &'a Indexed<T> = items[i].0;
        let ghost sorted = indexed_views(out@);
        let mut at: usize = out.len();
        proof {
            assert(sorted.take(at as int) == sorted);
        }
        while at > 0 && out[at - 1].index > item.index
            invariant
                at <= out@.len(),
                sorted == indexed_views(out@),
                slot(sorted, item.index) == slot(sorted.take(at as int), item.index),
            decreases at,
        {
            proof {
                assert(sorted.take(at as int).last() == sorted[at as int - 1]);
                assert(sorted.take(at as int).drop_last() == sorted.take(at as int - 1));
            }
            at -= 1;
        }
        proof {
            if at > 0 {
                assert(sorted.take(at as int).last() == sorted[at as int - 1]);
            }
            assert(slot(sorted, item.index) == at);
            let now = collected_views(items@.take(i as int + 1));
            let before = collected_views(items@.take(i as int));
            assert(now.drop_last() =~= before);
            assert(now.last() == IndexedModel { index: item.index, value: item.value@ });
            assert(indexed_views(out@.insert(at as int, item)) =~= sorted.insert(
                at as int,
                now.last(),
            ));
        }
        out.insert(at, item);
        i += 1;
    }
    proof {
        assert(items@.take(items.len() as int) == items@);
    }
    out
}

} // verus!
