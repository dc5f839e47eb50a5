use vstd::prelude::*;

verus! {

/// The place of the first of `items` that is wanted, if any is.
pub open spec fn first_index<T>(items: Seq<T>, wanted: spec_fn(T) -> bool) -> Option<int>
    decreases items.len(),
{
    if items.len() == 0 {
        None
    } else {
        match first_index(items.drop_last(), wanted) {
            Some(k) => Some(k),
            None => if wanted(items.last()) {
                Some(items.len() - 1)
            } else {
                None
            },
        }
    }
}

/// The place that `first_index` gives holds an item that is wanted, and no
/// place before it does; where it gives none, no item is wanted.
pub proof fn lemma_first_index<T>(items: Seq<T>, wanted: spec_fn(T) -> bool)
    ensures
        match first_index(items, wanted) {
            Some(k) => 0 <= k < items.len() && wanted(items[k]) && forall|j: int|
                0 <= j < k ==> !wanted(#[trigger] items[j]),
            None => forall|j: int| 0 <= j < items.len() ==> !wanted(#[trigger] items[j]),
        },
    decreases items.len(),
{
    if items.len() > 0 {
        let before = items.drop_last();
        lemma_first_index(before, wanted);
        match first_index(before, wanted) {
            Some(k) => {
                assert(items[k] == before[k]);
                assert forall|j: int| 0 <= j < k implies !wanted(#[trigger] items[j]) by {
                    assert(items[j] == before[j]);
                }
            },
            None => {
                assert forall|j: int| 0 <= j < items.len() - 1 implies !wanted(
                    #[trigger] items[j],
                ) by {
                    assert(items[j] == before[j]);
                }
            },
        }
    }
}

/// The first wanted item among the first `n` items is the first among all.
pub proof fn lemma_first_index_prefix<T>(items: Seq<T>, n: int, wanted: spec_fn(T) -> bool)
    requires
        0 <= n <= items.len(),
        first_index(items.take(n), wanted) is Some,
    ensures
        first_index(items, wanted) == first_index(items.take(n), wanted),
    decreases items.len() - n,
{
    if n < items.len() {
        assert(items.take(n + 1).drop_last() =~= items.take(n));
        lemma_first_index_prefix(items, n + 1, wanted);
    } else {
        assert(items.take(n) =~= items);
    }
}

} // verus!
