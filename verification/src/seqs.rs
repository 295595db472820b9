//! Facts about sequences that several modules share.

use vstd::prelude::*;

verus! {

/// Filtering keeps a sequence whole when every element passes.
pub proof fn lemma_filter_keeps_all<A>(items: Seq<A>, pred: spec_fn(A) -> bool)
    requires
        forall|i: int| 0 <= i < items.len() ==> pred(#[trigger] items[i]),
    ensures
        items.filter(pred) == items,
    decreases items.len(),
{
    reveal(Seq::filter);
    if items.len() > 0 {
        lemma_filter_keeps_all(items.drop_last(), pred);
        assert(items.drop_last().push(items.last()) =~= items);
    }
}

} // verus!
