//! Merging the per-chunk parts of one column into the column of the table.

use crate::flatten::{flatten_slices, lemma_flatten_take_step, slice_views};
use vstd::prelude::*;

verus! {

/// What each part holds. A part that is absent holds nothing.
pub open spec fn part_values<T>(parts: Seq<Option<Vec<T>>>) -> Seq<Seq<T>> {
    Seq::new(
        parts.len(),
        |k: int|
            match parts[k] {
                Some(values) => values@,
                None => Seq::empty(),
            },
    )
}

/// Whether every part is present.
pub open spec fn all_present<T>(parts: Seq<Option<Vec<T>>>) -> bool {
    forall|k: int| 0 <= k < parts.len() ==> (#[trigger] parts[k]) is Some
}

/// Whether `values` holds, place by place, a clone of what `source` holds.
pub open spec fn is_clone_of<T: Clone>(source: Seq<T>, values: Seq<T>) -> bool {
    &&& values.len() == source.len()
    &&& forall|i: int| 0 <= i < source.len() ==> cloned::<T>(source[i], #[trigger] values[i])
}

/// Merges the parts that the chunks gave for one column, in chunk order.
///
/// The column is all or nothing: if a single chunk has no part, the merged
/// column is absent, whatever the other chunks hold.
pub fn merge_column_chunks<T: Clone>(parts: &Vec<Option<Vec<T>>>) -> (merged: Option<Vec<T>>)
    requires
        part_values(parts@).flatten().len() <= usize::MAX,
    ensures
        merged is Some <==> all_present(parts@),
        merged is Some ==> is_clone_of(part_values(parts@).flatten(), merged->Some_0@),
{
    let mut value_slices: Vec<&[T]> = Vec::new();
    let mut k: usize = 0;
    while k < parts.len()
        invariant
            k <= parts@.len(),
            value_slices@.len() == k,
            forall|j: int| 0 <= j < k ==> (#[trigger] parts@[j]) is Some,
            forall|j: int| 0 <= j < k ==> (#[trigger] value_slices@[j])@ == part_values(parts@)[j],
        decreases parts@.len() - k,
    {
        match &parts[k] {
            Some(values) => {
                value_slices.push(values.as_slice());
            },
            None => {
                return None;
            },
        }
        k += 1;
    }
    assert(slice_views(value_slices@) =~= part_values(parts@));
    Some(flatten_slices(value_slices.as_slice()))
}

/// Puts the parts that the chunks gave for one column together, in chunk
/// order, without copying an item.
///
/// The column is all or nothing: if a single chunk has no part, the column is
/// absent, whatever the other chunks hold.
pub fn concat_column_chunks<T>(parts: Vec<Option<Vec<T>>>) -> (merged: Option<Vec<T>>)
    requires
        part_values(parts@).flatten().len() <= usize::MAX,
    ensures
        merged is Some <==> all_present(parts@),
        merged is Some ==> merged->Some_0@ == part_values(parts@).flatten(),
{
    let ghost all = parts@;
    let ghost values = part_values(all);
    let count: usize = parts.len();
    let mut rest = parts;
    // The parts that are there, the last one first.
    let mut stack: Vec<Vec<T>> = Vec::with_capacity(count);
    while rest.len() > 0
        invariant
            all == parts@,
            rest@.len() <= all.len(),
            rest@ == all.take(rest@.len() as int),
            stack@.len() == all.len() - rest@.len(),
            forall|j: int|
                0 <= j < stack@.len() ==> all[all.len() - 1 - j] == Some(#[trigger] stack@[j]),
        decreases rest@.len(),
    {
        let ghost last = rest@.len() - 1;
        match rest.pop() {
            Some(Some(part)) => {
                stack.push(part);
            },
            Some(None) => {
                assert(all[last] is None);
                return None;
            },
            None => {},
        }
    }
    assert(all_present(all)) by {
        assert forall|k: int| 0 <= k < all.len() implies (#[trigger] all[k]) is Some by {
            assert(all[all.len() - 1 - (all.len() - 1 - k)] == Some(stack@[all.len() - 1 - k]));
        }
    }
    let mut merged: Vec<T> = Vec::new();
    assert(values.take(0).flatten() =~= Seq::<T>::empty());
    while stack.len() > 0
        invariant
            values == part_values(all),
            all_present(all),
            values.flatten().len() <= usize::MAX,
            stack@.len() <= all.len(),
            forall|j: int|
                0 <= j < stack@.len() ==> all[all.len() - 1 - j] == Some(#[trigger] stack@[j]),
            merged@ == values.take(all.len() - stack@.len()).flatten(),
        decreases stack@.len(),
    {
        let ghost k = all.len() - stack@.len();
        let ghost top = stack@[stack@.len() - 1];
        proof {
            lemma_flatten_take_step(values, k);
            assert(all[k] == Some(top));
        }
        match stack.pop() {
            Some(mut part) => {
                merged.append(&mut part);
            },
            None => {},
        }
    }
    assert(values.take(all.len() as int) =~= values);
    Some(merged)
}

/// What holds of every pair of items at the same place in every pair of parts,
/// holds of every pair of items at the same place in the concatenations.
pub proof fn lemma_flatten_pairwise<A, B>(
    left: Seq<Seq<A>>,
    right: Seq<Seq<B>>,
    related: spec_fn(A, B) -> bool,
)
    requires
        left.len() == right.len(),
        forall|k: int| 0 <= k < left.len() ==> (#[trigger] left[k]).len() == right[k].len(),
        forall|k: int, j: int|
            0 <= k < left.len() && 0 <= j < left[k].len() ==> related(
                #[trigger] left[k][j],
                #[trigger] right[k][j],
            ),
    ensures
        left.flatten().len() == right.flatten().len(),
        forall|i: int|
            0 <= i < left.flatten().len() ==> related(
                #[trigger] left.flatten()[i],
                right.flatten()[i],
            ),
    decreases left.len(),
{
    if left.len() > 0 {
        lemma_flatten_pairwise(left.drop_first(), right.drop_first(), related);
        assert(left.first().len() == right.first().len()) by {
            assert(left[0].len() == right[0].len());
        }
        assert forall|i: int| 0 <= i < left.flatten().len() implies related(
            #[trigger] left.flatten()[i],
            right.flatten()[i],
        ) by {
            if i < left.first().len() {
                assert(related(left[0][i], right[0][i]));
            } else {
                let rest = i - left.first().len();
                assert(left.flatten()[i] == left.drop_first().flatten()[rest]);
                assert(right.flatten()[i] == right.drop_first().flatten()[rest]);
            }
        }
    }
}

/// What holds of every item of every part holds of every item of the
/// concatenation, and the other way round.
pub proof fn lemma_flatten_all<A>(parts: Seq<Seq<A>>, holds: spec_fn(A) -> bool)
    ensures
        (forall|i: int| 0 <= i < parts.flatten().len() ==> holds(#[trigger] parts.flatten()[i]))
            <==> (forall|k: int, j: int|
            0 <= k < parts.len() && 0 <= j < parts[k].len() ==> holds(#[trigger] parts[k][j])),
    decreases parts.len(),
{
    let flat = parts.flatten();
    if parts.len() > 0 {
        let rest = parts.drop_first();
        lemma_flatten_all(rest, holds);
        if forall|i: int| 0 <= i < flat.len() ==> holds(#[trigger] flat[i]) {
            assert forall|k: int, j: int|
                0 <= k < parts.len() && 0 <= j < parts[k].len() implies holds(
                #[trigger] parts[k][j],
            ) by {
                if k == 0 {
                    assert(flat[j] == parts[0][j]);
                } else {
                    assert forall|i: int| 0 <= i < rest.flatten().len() implies holds(
                        #[trigger] rest.flatten()[i],
                    ) by {
                        assert(flat[parts.first().len() + i] == rest.flatten()[i]);
                    }
                    assert(rest[k - 1][j] == parts[k][j]);
                }
            }
        }
        if forall|k: int, j: int|
            0 <= k < parts.len() && 0 <= j < parts[k].len() ==> holds(#[trigger] parts[k][j]) {
            assert forall|k: int, j: int|
                0 <= k < rest.len() && 0 <= j < rest[k].len() implies holds(
                #[trigger] rest[k][j],
            ) by {
                assert(rest[k][j] == parts[k + 1][j]);
            }
            assert forall|i: int| 0 <= i < flat.len() implies holds(#[trigger] flat[i]) by {
                if i < parts.first().len() {
                    assert(flat[i] == parts[0][i]);
                } else {
                    assert(flat[i] == rest.flatten()[i - parts.first().len()]);
                }
            }
        }
    }
}

/// Applying a function to every item commutes with concatenation.
pub proof fn lemma_flatten_map<A, B>(parts: Seq<Seq<A>>, f: spec_fn(A) -> B)
    ensures
        parts.flatten().map_values(f) == parts.map_values(
            |part: Seq<A>| part.map_values(f),
        ).flatten(),
    decreases parts.len(),
{
    let each = |part: Seq<A>| part.map_values(f);
    if parts.len() > 0 {
        lemma_flatten_map(parts.drop_first(), f);
        assert(parts.map_values(each).drop_first() =~= parts.drop_first().map_values(each));
        assert(parts.flatten().map_values(f) =~= parts.first().map_values(f)
            + parts.drop_first().flatten().map_values(f));
    } else {
        assert(parts.flatten().map_values(f) =~= Seq::empty());
        assert(parts.map_values(each) =~= Seq::empty());
    }
}

/// Parts that are no longer than other parts are no longer put together.
pub proof fn lemma_flatten_no_longer<A, B>(short: Seq<Seq<A>>, long: Seq<Seq<B>>)
    requires
        short.len() == long.len(),
        forall|k: int| 0 <= k < short.len() ==> (#[trigger] short[k]).len() <= long[k].len(),
    ensures
        short.flatten().len() <= long.flatten().len(),
    decreases short.len(),
{
    if short.len() > 0 {
        assert(short[0].len() <= long[0].len());
        lemma_flatten_no_longer(short.drop_first(), long.drop_first());
    }
}

} // verus!
