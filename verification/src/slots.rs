//! Tables of optional items in which the index of a slot is the item's
//! identifier: a new item goes into the first empty slot, or to the end
//! when every slot is taken, and slots never move.

use vstd::prelude::*;

verus! {

/// The table with every item replaced by its view.
pub open spec fn views<T: View>(slots: Seq<Option<T>>) -> Seq<Option<T::V>> {
    Seq::new(
        slots.len(),
        |i: int|
            match slots[i] {
                Some(item) => Some(item@),
                None => None,
            },
    )
}

/// Slot `id` exists and holds an item.
pub open spec fn occupied<V>(slots: Seq<Option<V>>, id: usize) -> bool {
    id < slots.len() && slots[id as int] is Some
}

/// `id` is the first empty slot, or the length of the table when none is empty.
pub open spec fn is_first_free<V>(slots: Seq<Option<V>>, id: int) -> bool {
    &&& 0 <= id <= slots.len()
    &&& id < slots.len() ==> slots[id] is None
    &&& forall|k: int| 0 <= k < id ==> (#[trigger] slots[k]) is Some
}

/// The slot that the next new item gets.
pub open spec fn first_free<V>(slots: Seq<Option<V>>) -> int {
    choose|id: int| is_first_free(slots, id)
}

/// The table after a new item has been put into the slot that is its due.
pub open spec fn install<V>(slots: Seq<Option<V>>, item: V) -> Seq<Option<V>> {
    if first_free(slots) < slots.len() {
        slots.update(first_free(slots), Some(item))
    } else {
        slots.push(Some(item))
    }
}

/// Only one slot is the first empty one.
pub proof fn lemma_first_free<V>(slots: Seq<Option<V>>, id: int)
    requires
        is_first_free(slots, id),
    ensures
        first_free(slots) == id,
{
    let other = first_free(slots);
    assert(other >= id && id >= other);
}

/// Every table has a first empty slot, within its length or just behind it.
pub proof fn lemma_first_free_exists<V>(slots: Seq<Option<V>>)
    ensures
        is_first_free(slots, first_free(slots)),
        0 <= first_free(slots) <= slots.len(),
    decreases slots.len(),
{
    if slots.len() == 0 {
        assert(is_first_free(slots, 0));
    } else {
        let rest = slots.drop_last();
        lemma_first_free_exists(rest);
        let id = first_free(rest);
        assert forall|k: int| 0 <= k < id implies (#[trigger] slots[k]) is Some by {
            assert(rest[k] is Some);
        }
        if id < rest.len() || slots.last() is None {
            assert(is_first_free(slots, id));
        } else {
            assert(is_first_free(slots, slots.len() as int));
        }
    }
}

/// A new item goes into a slot that was empty or did not exist: the items
/// that were in the table stay where they are, so an identifier names the
/// same item for as long as the item is there.
pub proof fn install_keeps_items<V>(slots: Seq<Option<V>>, item: V)
    ensures
        install(slots, item).len() >= slots.len(),
        install(slots, item)[first_free(slots)] == Some(item),
        forall|k: int|
            0 <= k < slots.len() && (#[trigger] slots[k]) is Some ==> install(slots, item)[k]
                == slots[k],
{
    lemma_first_free_exists(slots);
}

/// The first empty slot of a table is that of the table of its views.
pub proof fn lemma_first_free_of_views<T: View>(slots: Seq<Option<T>>)
    ensures
        first_free(views(slots)) == first_free(slots),
{
    lemma_first_free_exists(slots);
    let id = first_free(slots);
    assert forall|k: int| 0 <= k < id implies (#[trigger] views(slots)[k]) is Some by {
        assert(slots[k] is Some);
    }
    lemma_first_free(views(slots), id);
}

/// Puts `item` into the first empty slot of `list`, or at its end when no
/// slot is empty, and returns the slot.
pub fn fill_slot<T>(list: &mut Vec<Option<T>>, item: T) -> (id: usize)
    ensures
        id == first_free(old(list)@),
        id <= old(list)@.len(),
        final(list)@ == install(old(list)@, item),
{
    let mut id: usize = 0;
    while id < list.len() && list[id].is_some()
        invariant
            id <= list.len(),
            *list == *old(list),
            forall|k: int| 0 <= k < id ==> (#[trigger] list@[k]) is Some,
        decreases list.len() - id,
    {
        id += 1;
    }
    proof {
        lemma_first_free(list@, id as int);
    }
    if id < list.len() {
        list[id] = Some(item);
    } else {
        list.push(Some(item));
    }
    id
}

/// Puts `item` into the first empty slot of `list`, or at its end when no
/// slot is empty, and returns the slot: [`fill_slot`], stated over the views
/// of the items.
pub fn claim_slot<T: View>(list: &mut Vec<Option<T>>, item: T) -> (id: usize)
    ensures
        id == first_free(views(old(list)@)),
        views(final(list)@) == install(views(old(list)@), item@),
        final(list)@.len() == if id < old(list)@.len() {
            old(list)@.len()
        } else {
            old(list)@.len() + 1
        },
        forall|k: int| 0 <= k < old(list)@.len() && k != id ==> final(list)@[k] == old(list)@[k],
        final(list)@[id as int] == Some(item),
{
    proof {
        lemma_first_free_of_views(list@);
    }
    fill_slot(list, item)
}

} // verus!
