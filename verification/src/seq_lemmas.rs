//! Facts about sequences and indices that are not tied to paths or archives.

use vstd::prelude::*;

verus! {

/// Among the indices at which a condition fails there is a first.
pub proof fn lemma_first_failure(free: spec_fn(int) -> bool, bad: int) -> (first: int)
    requires
        0 <= bad,
        !free(bad),
    ensures
        0 <= first <= bad,
        !free(first),
        forall|i: int| 0 <= i < first ==> #[trigger] free(i),
    decreases bad,
{
    if exists|i: int| 0 <= i < bad && !#[trigger] free(i) {
        let earlier = choose|i: int| 0 <= i < bad && !#[trigger] free(i);
        lemma_first_failure(free, earlier)
    } else {
        bad
    }
}

/// Skipping the front of two joined sequences leaves the back.
pub proof fn lemma_skip_front<A>(front: Seq<A>, back: Seq<A>)
    ensures
        (front + back).skip(front.len() as int) == back,
{
    assert((front + back).skip(front.len() as int) =~= back);
}

/// The front of two joined sequences is still there once the last item of the back is gone.
pub proof fn lemma_front_remains<A>(front: Seq<A>, back: Seq<A>)
    requires
        back.len() > 0,
    ensures
        front.is_prefix_of((front + back).drop_last()),
{
    assert(front =~= (front + back).drop_last().subrange(0, front.len() as int));
}

/// A filter keeps exactly what it is to keep.
pub proof fn lemma_filter_contains<A>(all: Seq<A>, wanted: spec_fn(A) -> bool, item: A)
    ensures
        all.filter(wanted).contains(item) <==> all.contains(item) && wanted(item),
    decreases all.len(),
{
    reveal(Seq::filter);
    if all.len() > 0 {
        let (front, last) = (all.drop_last(), all.last());
        lemma_filter_contains(front, wanted, item);
        let (before, after) = (front.filter(wanted), all.filter(wanted));
        assert(all.contains(item) <==> front.contains(item) || item == last) by {
            assert(front.push(last) =~= all);
            if front.contains(item) {
                let i = choose|i: int| 0 <= i < front.len() && front[i] == item;
                assert(all[i] == item);
            }
            assert(all[all.len() - 1] == last);
        }
        if wanted(last) {
            assert(after == before.push(last));
            if before.contains(item) {
                let i = choose|i: int| 0 <= i < before.len() && before[i] == item;
                assert(after[i] == item);
            }
            assert(after[before.len() as int] == last);
            if after.contains(item) && item != last {
                let i = choose|i: int| 0 <= i < after.len() && after[i] == item;
                assert(before[i] == item);
            }
        }
    }
}

} // verus!
