//! Order-preserving concatenation of chunked arrays.

use vstd::prelude::*;
use vstd::seq_lib::lemma_flatten_concat;

verus! {

/// What each slice of `slices` holds.
pub open spec fn slice_views<T>(slices: Seq<&[T]>) -> Seq<Seq<T>> {
    Seq::new(slices.len(), |k: int| slices[k]@)
}

/// A longer list of parts has a longer concatenation, of which the shorter
/// one is the beginning.
pub proof fn lemma_flatten_take_step<T>(parts: Seq<Seq<T>>, k: int)
    requires
        0 <= k < parts.len(),
    ensures
        parts.take(k + 1).flatten() == parts.take(k).flatten() + parts[k],
        parts.take(k).flatten().len() + parts[k].len() <= parts.flatten().len(),
    decreases parts.len() - k,
{
    assert(parts.take(k + 1) =~= parts.take(k).push(parts[k]));
    parts.take(k).lemma_flatten_push(parts[k]);
    if k + 1 < parts.len() {
        lemma_flatten_take_step(parts, k + 1);
    } else {
        assert(parts.take(k + 1) =~= parts);
    }
}

/// Concatenates the given slices into a single vector, in order.
///
/// Every item of the result is a clone of the item at the same place in the
/// concatenation; where cloning gives an equal value, the result is the
/// concatenation itself.
pub fn flatten_slices<T: Clone>(slices: &[&[T]]) -> (flattened: Vec<T>)
    requires
        slice_views(slices@).flatten().len() <= usize::MAX,
    ensures
        flattened@.len() == slice_views(slices@).flatten().len(),
        forall|i: int|
            0 <= i < flattened@.len() ==> cloned::<T>(
                slice_views(slices@).flatten()[i],
                #[trigger] flattened@[i],
            ),
        (forall|a: T, b: T| #[trigger] cloned::<T>(a, b) ==> a == b) ==> flattened@ == slice_views(
            slices@,
        ).flatten(),
{
    let ghost parts = slice_views(slices@);
    // The total size of the output, so that the memory is reserved once.
    let mut total_len: usize = 0;
    let mut k: usize = 0;
    assert(parts.take(0).flatten() =~= Seq::<T>::empty());
    while k < slices.len()
        invariant
            parts == slice_views(slices@),
            parts.flatten().len() <= usize::MAX,
            k <= slices@.len(),
            total_len == parts.take(k as int).flatten().len(),
        decreases slices@.len() - k,
    {
        proof {
            lemma_flatten_take_step(parts, k as int);
        }
        total_len += slices[k].len();
        k += 1;
    }

    let mut flattened: Vec<T> = Vec::with_capacity(total_len);
    let mut k: usize = 0;
    while k < slices.len()
        invariant
            parts == slice_views(slices@),
            k <= slices@.len(),
            flattened@.len() == parts.take(k as int).flatten().len(),
            forall|i: int|
                0 <= i < flattened@.len() ==> cloned::<T>(
                    parts.take(k as int).flatten()[i],
                    #[trigger] flattened@[i],
                ),
        decreases slices@.len() - k,
    {
        proof {
            lemma_flatten_take_step(parts, k as int);
        }
        flattened.extend_from_slice(slices[k]);
        k += 1;
    }
    assert(parts.take(k as int) =~= parts);
    proof {
        if forall|a: T, b: T| #[trigger] cloned::<T>(a, b) ==> a == b {
            assert(flattened@ =~= parts.flatten());
        }
    }
    flattened
}

/// What the concatenation is: no slices give an empty result, one slice
/// gives that slice, and slices after slices give the one result after the
/// other.
pub proof fn lemma_flatten_is_concatenation<T>(left: Seq<Seq<T>>, right: Seq<Seq<T>>, one: Seq<T>)
    ensures
        Seq::<Seq<T>>::empty().flatten() == Seq::<T>::empty(),
        seq![one].flatten() == one,
        (left + right).flatten() == left.flatten() + right.flatten(),
{
    seq![one].lemma_flatten_one_element();
    lemma_flatten_concat(left, right);
}

} // verus!
