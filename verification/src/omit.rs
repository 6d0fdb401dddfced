//! Leaving one item out of a sequence.

use vstd::prelude::*;

verus! {

/// The items of `items` other than `unwanted`, in their order.
pub open spec fn omit<A>(items: Seq<A>, unwanted: A) -> Seq<A> {
    items.filter(|item: A| item != unwanted)
}

/// What one more item adds to the result.
pub proof fn lemma_omit_push<A>(items: Seq<A>, last: A, unwanted: A)
    ensures
        omit(items.push(last), unwanted) == if last == unwanted {
            omit(items, unwanted)
        } else {
            omit(items, unwanted).push(last)
        },
{
    reveal(Seq::filter);
    assert(items.push(last).drop_last() =~= items);
}

/// The result holds every other item of `items` and not `unwanted`, is free
/// of duplicates if `items` is, and is `items` itself if `unwanted` does not
/// occur.
pub proof fn lemma_omit<A>(items: Seq<A>, unwanted: A)
    ensures
        !omit(items, unwanted).contains(unwanted),
        forall|item: A|
            item != unwanted ==> (#[trigger] omit(items, unwanted).contains(item)
                <==> items.contains(item)),
        items.no_duplicates() ==> omit(items, unwanted).no_duplicates(),
        !items.contains(unwanted) ==> omit(items, unwanted) == items,
        omit(items, unwanted).len() <= items.len(),
    decreases items.len(),
{
    let rest = omit(items, unwanted);
    if items.len() > 0 {
        let front = items.drop_last();
        let last = items.last();
        let front_rest = omit(front, unwanted);
        lemma_omit(front, unwanted);
        lemma_omit_push(front, last, unwanted);
        assert(items =~= front.push(last));
        assert forall|item: A| item != unwanted implies (#[trigger] rest.contains(item)
            <==> items.contains(item)) by {
            if rest.contains(item) {
                let i: int = choose|i: int| 0 <= i < rest.len() && rest[i] == item;
                if i < front_rest.len() {
                    assert(front_rest.contains(item));
                }
            }
        }
        if items.no_duplicates() && last != unwanted {
            // `last` does not occur in `front`, so it is new to `front_rest`.
            assert(!front_rest.contains(last));
        }
    }
}

/// A prefix of a sequence keeps no more items than the whole.
pub proof fn lemma_omit_prefix<A>(items: Seq<A>, unwanted: A, n: int)
    requires
        0 <= n <= items.len(),
    ensures
        omit(items.take(n), unwanted).len() <= omit(items, unwanted).len(),
    decreases items.len() - n,
{
    if n == items.len() {
        assert(items.take(n) =~= items);
    } else {
        lemma_omit_prefix(items, unwanted, n + 1);
        lemma_omit_push(items.take(n), items[n], unwanted);
        assert(items.take(n).push(items[n]) =~= items.take(n + 1));
    }
}

} // verus!
