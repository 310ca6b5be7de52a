//! Views of a slice that hand out its elements as separate mutable references.

use crate::instruction::InstructionError;
use vstd::prelude::*;
use vstd::std_specs::cmp::PartialEqSpec;

verus! {

/// Some element of `xs` occurs at two places.
pub open spec fn contains_duplicate<T: PartialEq>(xs: Seq<T>) -> bool {
    exists|i: int, j: int| 0 <= i < j < xs.len() && #[trigger] xs[i].eq_spec(&xs[j])
}

/// Some index occurs at two places of the list.
pub open spec fn has_repeated_index(indexes: Seq<u8>) -> bool {
    exists|i: int, j: int| 0 <= i < j < indexes.len() && indexes[i] == indexes[j]
}

/// Some place of the list holds the index `slot`.
pub open spec fn names_slot(indexes: Seq<u8>, slot: int) -> bool {
    exists|k: int| 0 <= k < indexes.len() && indexes[k] == slot
}

/// For a list of indexes, a duplicate is a repeated index.
pub proof fn lemma_duplicate_index(indexes: Seq<u8>)
    ensures
        contains_duplicate(indexes) == has_repeated_index(indexes),
{
    if contains_duplicate(indexes) {
        let (i, j) = choose|i: int, j: int|
            0 <= i < j < indexes.len() && #[trigger] indexes[i].eq_spec(&indexes[j]);
        assert(indexes[i] == indexes[j]);
    }
    if has_repeated_index(indexes) {
        let (i, j) = choose|i: int, j: int| 0 <= i < j < indexes.len() && indexes[i] == indexes[j];
        assert(indexes[i].eq_spec(&indexes[j]));
    }
}

/// Whether the slice has any duplicate elements.
///
/// Every element is compared with each one after it: quadratic, without
/// allocation, and faster than hashing on the short lists this is made for.
pub fn has_duplicates<T: PartialEq>(xs: &[T]) -> (found: bool)
    ensures
        T::obeys_eq_spec() ==> found == contains_duplicate(xs@),
{
    let n = xs.len();
    let mut i: usize = 0;
    while i < n
        invariant
            n == xs@.len(),
            i <= n,
            T::obeys_eq_spec() ==> forall|a: int, b: int|
                0 <= a < b < n && a < i ==> !(#[trigger] xs@[a].eq_spec(&xs@[b])),
        decreases n - i,
    {
        let mut j: usize = i + 1;
        while j < n
            invariant
                n == xs@.len(),
                i < j <= n,
                T::obeys_eq_spec() ==> forall|b: int|
                    i < b < j ==> !(#[trigger] xs@[i as int].eq_spec(&xs@[b])),
            decreases n - j,
        {
            if xs[i] == xs[j] {
                return true;
            }
            j += 1;
        }
        i += 1;
    }
    false
}

/// One mutable reference to each element of `xs`, in order.
///
/// Each reference starts at its element's value, and the element ends at the
/// value that its reference is left with.
pub fn each_mut<'a, T>(xs: &'a mut [T]) -> (slots: Vec<Option<&'a mut T>>)
    ensures
        slots@.len() == old(xs)@.len(),
        final(xs)@.len() == old(xs)@.len(),
        forall|i: int|
            0 <= i < slots@.len() ==> {
                &&& (#[trigger] slots@[i]) is Some
                &&& *slots@[i]->0 == old(xs)@[i]
                &&& final(xs)@[i] == *final(slots@[i]->0)
            },
{
    let ghost before = xs@;
    let ghost after = final(xs)@;
    let mut rest: &mut [T] = xs;
    let mut slots: Vec<Option<&'a mut T>> = Vec::new();
    while rest.len() > 0
        invariant
            slots@.len() + rest@.len() == before.len(),
            rest@ == before.subrange(slots@.len() as int, before.len() as int),
            after == Seq::new(slots@.len(), |i: int| *final(slots@[i]->0)) + final(rest)@,
            forall|i: int|
                0 <= i < slots@.len() ==> (#[trigger] slots@[i]) is Some && *slots@[i]->0
                    == before[i],
        decreases rest@.len(),
    {
        let (head, tail) = rest.split_at_mut(1);
        slots.push(head.first_mut());
        rest = tail;
    }
    // Nothing is left of the slice: what it ends as is empty too.
    let _ = rest.first_mut();
    slots
}

/// Mutable references to the elements of `xs` that `indexes` names, in the
/// order of `indexes`.
///
/// No element can be handed out twice, so a list with a repeated index is
/// refused, before any reference is made. Each index must be in range.
pub fn get_subset_unchecked_mut<'a, T>(xs: &'a mut [T], indexes: &[u8]) -> (subset: Result<
    Vec<&'a mut T>,
    InstructionError,
>)
    requires
        forall|k: int| 0 <= k < indexes@.len() ==> (indexes@[k] as int) < old(xs)@.len(),
    ensures
        subset is Err <==> has_repeated_index(indexes@),
        subset matches Err(e) ==> e == InstructionError::DuplicateAccountIndex
            && final(xs)@ == old(xs)@,
        subset matches Ok(refs) ==> {
            &&& refs@.len() == indexes@.len()
            &&& final(xs)@.len() == old(xs)@.len()
            &&& forall|a: int, b: int| 0 <= a < b < refs@.len() ==> indexes@[a] != indexes@[b]
            &&& forall|k: int|
                0 <= k < refs@.len() ==> *(#[trigger] refs@[k]) == old(xs)@[indexes@[k] as int]
            &&& forall|k: int|
                0 <= k < refs@.len() ==> final(xs)@[indexes@[k] as int]
                    == *final(#[trigger] refs@[k])
            &&& forall|slot: int|
                0 <= slot < old(xs)@.len() && !names_slot(indexes@, slot) ==> final(xs)@[slot]
                    == old(xs)@[slot]
        },
{
    proof {
        lemma_duplicate_index(indexes@);
    }
    if has_duplicates(indexes) {
        return Err(InstructionError::DuplicateAccountIndex);
    }
    let ghost before = xs@;
    let ghost after = final(xs)@;
    let mut slots = each_mut(xs);
    let ghost all = slots@;
    let mut subset: Vec<&'a mut T> = Vec::new();
    let mut k: usize = 0;
    while k < indexes.len()
        invariant
            k <= indexes@.len(),
            !has_repeated_index(indexes@),
            slots@.len() == all.len(),
            all.len() == before.len(),
            forall|m: int| 0 <= m < indexes@.len() ==> (indexes@[m] as int) < before.len(),
            forall|slot: int| 0 <= slot < all.len() ==> (#[trigger] all[slot]) is Some,
            subset@.len() == k,
            forall|m: int| 0 <= m < k ==> #[trigger] subset@[m] == all[indexes@[m] as int]->0,
            forall|slot: int|
                0 <= slot < all.len() && (forall|m: int| 0 <= m < k ==> indexes@[m] != slot)
                    ==> #[trigger] slots@[slot] == all[slot],
        decreases indexes@.len() - k,
    {
        let index = indexes[k] as usize;
        assert forall|m: int| 0 <= m < k implies indexes@[m] != index by {
            if indexes@[m] == index {
                assert(indexes@[m] == indexes@[k as int]);
            }
        }
        let taken = slots[index].take();
        subset.push(taken.unwrap());
        k += 1;
    }
    assert forall|slot: int|
        0 <= slot < before.len() && !names_slot(indexes@, slot) implies after[slot]
        == before[slot] by {
        // The reference to this element was never handed out: it is dropped
        // here, with the element as it was.
        assert(slots@[slot] == all[slot]);
        assert(has_resolved(slots@[slot]->0));
    }
    Ok(subset)
}

} // verus!
