//! Laws that relate the operations of an `AnyList` to one another.
use vstd::prelude::*;

use crate::any_list::AnyList;
use crate::element::Element;

verus! {

/// Setting the element at `index` to `value` and then getting it yields
/// `value`.
pub proof fn lemma_set_then_get<T: Element>(list: AnyList, index: int, value: T)
    requires
        0 <= index < list@.len(),
    ensures
        ({
            let set = list@.update(index, value.to_bytes());
            set.map_values(|b: Seq<u8>| T::from_bytes(b))[index] == value
        }),
{
    T::lemma_round_trip(value);
}

/// Inserting at `index` and then removing at `index` gives back the
/// elements as they were, bytes and values alike.
pub proof fn lemma_insert_then_remove<T: Element>(list: AnyList, index: int, value: T)
    requires
        0 <= index <= list@.len(),
    ensures
        list@.insert(index, value.to_bytes()).remove(index) == list@,
        list.items::<T>().insert(index, value).remove(index) == list.items::<T>(),
{
    assert(list@.insert(index, value.to_bytes()).remove(index) =~= list@);
    assert(list.items::<T>().insert(index, value).remove(index) =~= list.items::<T>());
}

/// Removing at `index` and then inserting the removed element at `index`
/// gives back the elements as they were.
pub proof fn lemma_remove_then_insert<T: Element>(list: AnyList, index: int)
    requires
        0 <= index < list@.len(),
    ensures
        list@.remove(index).insert(index, list@[index]) == list@,
        list.items::<T>().remove(index).insert(index, list.items::<T>()[index])
            == list.items::<T>(),
{
    assert(list@.remove(index).insert(index, list@[index]) =~= list@);
    assert(list.items::<T>().remove(index).insert(index, list.items::<T>()[index])
        =~= list.items::<T>());
}

/// Pushing `values` one by one onto an empty list leaves it holding exactly
/// `values`, in order: `states[k + 1]` is `states[k]` after pushing
/// `values[k]`.
pub proof fn lemma_pushes_in_order<T: Element>(states: Seq<AnyList>, values: Seq<T>)
    requires
        states.len() == values.len() + 1,
        states[0]@.len() == 0,
        forall|k: int|
            0 <= k < values.len() ==> #[trigger] states[k + 1].items::<T>() == states[k].items::<
                T,
            >().push(values[k]),
    ensures
        states.last()@.len() == values.len(),
        states.last().items::<T>() == values,
    decreases values.len(),
{
    let n = values.len() as int;
    if n == 0 {
        assert(states[0].items::<T>() =~= values);
    } else {
        let prefix = states.drop_last();
        lemma_pushes_in_order::<T>(prefix, values.drop_last());
        assert(prefix.last() == states[n - 1]);
        assert(states[n].items::<T>() == states[n - 1].items::<T>().push(values[n - 1]));
        assert(values.drop_last().push(values[n - 1]) =~= values);
    }
}

} // verus!
