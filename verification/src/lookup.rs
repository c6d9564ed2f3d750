//! Searching lists of identifiers.

use vstd::prelude::*;

verus! {

/// Taking the element at `index` out of a sequence without duplicates removes
/// that value and nothing else.
pub proof fn lemma_remove_value_at(list: Seq<u128>, index: int)
    requires
        list.no_duplicates(),
        0 <= index < list.len(),
    ensures
        list.remove_value(list[index]) == list.remove(index),
        list.remove(index).no_duplicates(),
        forall|id: u128| #[trigger]
            list.remove(index).contains(id) <==> (list.contains(id) && id != list[index]),
{
    let gone = list[index];
    list.index_of_first_ensures(gone);
    let rest = list.remove(index);
    assert forall|id: u128| #[trigger] rest.contains(id) <==> (list.contains(id) && id
        != gone) by {
        if list.contains(id) && id != gone {
            let j = choose|j: int| 0 <= j < list.len() && list[j] == id;
            if j < index {
                assert(rest[j] == id);
            } else {
                assert(rest[j - 1] == id);
            }
        }
    }
}

/// Removing a value that does not occur leaves the sequence as it is.
pub proof fn lemma_remove_value_absent(list: Seq<u128>, id: u128)
    requires
        !list.contains(id),
    ensures
        list.remove_value(id) == list,
{
    list.index_of_first_ensures(id);
}

/// Adding a value that does not occur keeps a sequence free of duplicates.
pub proof fn lemma_push_new(list: Seq<u128>, id: u128)
    requires
        list.no_duplicates(),
        !list.contains(id),
    ensures
        list.push(id).no_duplicates(),
        forall|other: u128| #[trigger]
            list.push(id).contains(other) <==> (list.contains(other) || other == id),
{
    let longer = list.push(id);
    assert forall|other: u128| #[trigger] longer.contains(other) <==> (list.contains(other)
        || other == id) by {
        if list.contains(other) {
            let j = choose|j: int| 0 <= j < list.len() && list[j] == other;
            assert(longer[j] == other);
        }
        if other == id {
            assert(longer[list.len() as int] == id);
        }
    }
}

/// The position of the first occurrence of `id` in `list`.
pub fn position(list: &Vec<u128>, id: u128) -> (found: Option<usize>)
    ensures
        match found {
            Some(index) => {
                &&& index < list@.len()
                &&& list@[index as int] == id
                &&& list@.index_of_first(id) == Some(index as int)
            },
            None => !list@.contains(id),
        },
{
    let mut index: usize = 0;
    while index < list.len()
        invariant
            index <= list@.len(),
            forall|j: int| 0 <= j < index ==> list@[j] != id,
        decreases list@.len() - index,
    {
        if list[index] == id {
            proof {
                list@.index_of_first_ensures(id);
            }
            return Some(index);
        }
        index = index + 1;
    }
    None
}

/// A copy of `list`.
pub fn copy_ids(list: &Vec<u128>) -> (copy: Vec<u128>)
    ensures
        copy@ == list@,
{
    let mut copy: Vec<u128> = Vec::new();
    let mut index: usize = 0;
    while index < list.len()
        invariant
            index <= list@.len(),
            copy@ == list@.take(index as int),
        decreases list@.len() - index,
    {
        copy.push(list[index]);
        index = index + 1;
    }
    copy
}

} // verus!
