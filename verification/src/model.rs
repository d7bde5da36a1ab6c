//! Vocabulary shared by the contracts: views of lists and of optional values.

use vstd::prelude::*;

verus! {

/// The views of a list's items, in order.
pub open spec fn views<T: View>(items: Seq<T>) -> Seq<T::V> {
    items.map_values(|item: T| item@)
}

/// The view of an optional value.
pub open spec fn option_view<T: View>(value: Option<T>) -> Option<T::V> {
    match value {
        Some(inner) => Some(inner@),
        None => None,
    }
}

/// The view of an outcome.
pub open spec fn result_view<T: View, E: View>(outcome: Result<T, E>) -> Result<T::V, E::V> {
    match outcome {
        Ok(value) => Ok(value@),
        Err(error) => Err(error@),
    }
}

/// The views of a list of outcomes, in order.
pub open spec fn outcome_views<T: View, E: View>(items: Seq<Result<T, E>>) -> Seq<
    Result<T::V, E::V>,
> {
    items.map_values(|item: Result<T, E>| result_view(item))
}

/// The views of a list of pairs, in order.
pub open spec fn pair_views<A: View, B: View>(items: Seq<(A, B)>) -> Seq<(A::V, B::V)> {
    items.map_values(|item: (A, B)| (item.0@, item.1@))
}

/// Copies an optional text.
pub fn copy_option(value: &Option<String>) -> (copy: Option<String>)
    ensures
        option_view(copy) == option_view(*value),
{
    match value {
        Some(text) => Some(text.clone()),
        None => None,
    }
}

/// Copies a byte string.
pub fn copy_bytes(bytes: &[u8]) -> (copy: Vec<u8>)
    ensures
        copy@ == bytes@,
{
    let mut copy: Vec<u8> = Vec::new();
    for i in 0..bytes.len()
        invariant
            copy@ == bytes@.take(i as int),
    {
        copy.push(bytes[i]);
        assert(copy@ =~= bytes@.take(i + 1));
    }
    assert(bytes@.take(bytes@.len() as int) =~= bytes@);
    copy
}

/// How many of these items are picked.
pub open spec fn count_of<A>(items: Seq<A>, picks: spec_fn(A) -> bool) -> nat
    decreases items.len(),
{
    if items.len() == 0 {
        0
    } else {
        count_of(items.drop_last(), picks) + if picks(items.last()) {
            1nat
        } else {
            0nat
        }
    }
}

/// A count over more items is a count over fewer and over the next one.
pub proof fn lemma_count_next<A>(items: Seq<A>, picks: spec_fn(A) -> bool, n: int)
    requires
        0 <= n < items.len(),
    ensures
        count_of(items.take(n + 1), picks) == count_of(items.take(n), picks) + if picks(items[n]) {
            1nat
        } else {
            0nat
        },
{
    assert(items.take(n + 1).drop_last() =~= items.take(n));
}

/// Counts over more items are no smaller.
pub proof fn lemma_count_grows<A>(items: Seq<A>, picks: spec_fn(A) -> bool, n: int, m: int)
    requires
        0 <= n <= m <= items.len(),
    ensures
        count_of(items.take(n), picks) <= count_of(items.take(m), picks),
    decreases m - n,
{
    if n < m {
        lemma_count_grows(items, picks, n, m - 1);
        lemma_count_next(items, picks, m - 1);
    }
}

/// Lists are seen item by item, and optional values and outcomes by what they hold.
pub proof fn views_are_taken_one_for_one<A: View, B: View>(
    items: Seq<A>,
    pairs: Seq<(A, B)>,
    outcomes: Seq<Result<A, B>>,
    value: Option<A>,
    at: int,
)
    ensures
        views(items).len() == items.len(),
        0 <= at < items.len() ==> views(items)[at] == items[at]@,
        pair_views(pairs).len() == pairs.len(),
        0 <= at < pairs.len() ==> pair_views(pairs)[at].0 == pairs[at].0@ && pair_views(
            pairs,
        )[at].1 == pairs[at].1@,
        outcome_views(outcomes).len() == outcomes.len(),
        0 <= at < outcomes.len() ==> (match outcomes[at] {
            Ok(inner) => outcome_views(outcomes)[at] == Ok::<A::V, B::V>(inner@),
            Err(error) => outcome_views(outcomes)[at] == Err::<A::V, B::V>(error@),
        }),
        value is None <==> option_view(value) is None,
        value matches Some(inner) ==> option_view(value) == Some(inner@),
{
}

} // verus!
