//! Going through a sequence, collecting what each item yields, up to the first failure.

use crate::failure::Fault;
use vstd::prelude::*;

verus! {

/// The views of the items of a sequence.
pub open spec fn views<T: View>(s: Seq<T>) -> Seq<T::V> {
    Seq::new(s.len(), |i: int| s[i]@)
}

/// What `f` yields for the items, one after the other; where it fails for some, its failure for
/// the first of these.
pub open spec fn gather<A, B>(
    items: Seq<A>,
    f: spec_fn(A) -> Result<Seq<B>, Fault>,
) -> Result<Seq<B>, Fault>
    decreases items.len(),
{
    if items.len() == 0 {
        Ok(Seq::<B>::empty())
    } else {
        match gather(items.drop_last(), f) {
            Err(e) => Err(e),
            Ok(done) => match f(items.last()) {
                Err(e) => Err(e),
                Ok(more) => Ok(done + more),
            },
        }
    }
}

/// `gather` over one item more.
pub proof fn lemma_gather_next<A, B>(
    items: Seq<A>,
    f: spec_fn(A) -> Result<Seq<B>, Fault>,
    i: int,
)
    requires
        0 <= i < items.len(),
        gather(items.take(i), f) is Ok,
    ensures
        gather(items.take(i + 1), f) == match f(items[i]) {
            Err(e) => Err::<Seq<B>, Fault>(e),
            Ok(more) => Ok(gather(items.take(i), f)->Ok_0 + more),
        },
        f(items[i]) matches Err(e) ==> gather(items, f) == Err::<Seq<B>, Fault>(e),
{
    assert(items.take(i + 1).drop_last() =~= items.take(i));
    if f(items[i]) is Err {
        lemma_gather_failed(items, f, i + 1);
    }
}

/// A failure among the first items is the failure of the whole.
pub proof fn lemma_gather_failed<A, B>(
    items: Seq<A>,
    f: spec_fn(A) -> Result<Seq<B>, Fault>,
    i: int,
)
    requires
        0 <= i <= items.len(),
        gather(items.take(i), f) is Err,
    ensures
        gather(items, f) == gather(items.take(i), f),
    decreases items.len() - i,
{
    if i < items.len() {
        assert(items.take(i + 1).drop_last() =~= items.take(i));
        lemma_gather_failed(items, f, i + 1);
    } else {
        assert(items.take(i) =~= items);
    }
}

/// `gather` yields one thing for each item, where `f` does.
pub proof fn lemma_gather_one_each<A, B>(items: Seq<A>, f: spec_fn(A) -> Result<Seq<B>, Fault>)
    requires
        gather(items, f) is Ok,
        forall|i: int|
            0 <= i < items.len() ==> (f(#[trigger] items[i]) matches Ok(s) ==> s.len() == 1),
    ensures
        gather(items, f)->Ok_0.len() == items.len(),
        forall|i: int|
            0 <= i < items.len() ==> f(#[trigger] items[i]) == Ok::<Seq<B>, Fault>(
                seq![gather(items, f)->Ok_0[i]],
            ),
    decreases items.len(),
{
    if items.len() > 0 {
        let before = items.drop_last();
        assert forall|i: int| 0 <= i < before.len() implies (f(#[trigger] before[i]) matches Ok(
            s,
        ) ==> s.len() == 1) by {
            assert(before[i] == items[i]);
        }
        lemma_gather_one_each(before, f);
        let last = items[items.len() - 1];
        let more = f(last)->Ok_0;
        assert(more =~= seq![more[0]]);
        assert forall|i: int| 0 <= i < items.len() implies f(#[trigger] items[i]) == Ok::<
            Seq<B>,
            Fault,
        >(seq![gather(items, f)->Ok_0[i]]) by {
            if i < items.len() - 1 {
                assert(before[i] == items[i]);
            }
        }
    }
}

/// `gather` succeeds where `f` does for each item, and yields what `f` yields for some item.
pub proof fn lemma_gather_members<A, B>(items: Seq<A>, f: spec_fn(A) -> Result<Seq<B>, Fault>)
    requires
        forall|i: int| 0 <= i < items.len() ==> f(#[trigger] items[i]) is Ok,
    ensures
        gather(items, f) is Ok,
        forall|b: B| #[trigger]
            gather(items, f)->Ok_0.contains(b) <==> exists|i: int|
                0 <= i < items.len() && f(#[trigger] items[i])->Ok_0.contains(b),
    decreases items.len(),
{
    if items.len() > 0 {
        let before = items.drop_last();
        let last = items[items.len() - 1];
        assert forall|i: int| 0 <= i < before.len() implies f(#[trigger] before[i]) is Ok by {
            assert(before[i] == items[i]);
        }
        lemma_gather_members(before, f);
        let done = gather(before, f)->Ok_0;
        let more = f(last)->Ok_0;
        let all = gather(items, f)->Ok_0;
        assert(f(items[items.len() - 1]) is Ok);
        assert(all == done + more);
        assert forall|b: B| #[trigger] all.contains(b) <==> exists|i: int|
            0 <= i < items.len() && f(#[trigger] items[i])->Ok_0.contains(b) by {
            if all.contains(b) {
                let k = choose|k: int| 0 <= k < all.len() && all[k] == b;
                if k < done.len() {
                    assert(done[k] == b);
                    assert(done.contains(b));
                    let i = choose|i: int|
                        0 <= i < before.len() && f(#[trigger] before[i])->Ok_0.contains(b);
                    assert(f(items[i])->Ok_0.contains(b));
                } else {
                    assert(more[k - done.len()] == b);
                    assert(f(items[items.len() - 1])->Ok_0.contains(b));
                }
            }
            if exists|i: int| 0 <= i < items.len() && f(#[trigger] items[i])->Ok_0.contains(b) {
                let i = choose|i: int|
                    0 <= i < items.len() && f(#[trigger] items[i])->Ok_0.contains(b);
                if i < before.len() {
                    assert(f(before[i])->Ok_0.contains(b));
                    assert(done.contains(b));
                    let k = choose|k: int| 0 <= k < done.len() && done[k] == b;
                    assert(all[k] == b);
                } else {
                    let k = choose|k: int| 0 <= k < more.len() && more[k] == b;
                    assert(all[done.len() + k] == b);
                }
            }
        }
    } else {
        assert forall|b: B| !#[trigger] gather(items, f)->Ok_0.contains(b) by {}
    }
}

/// Where `gather` fails, it fails as `f` does for some item, before which `f` fails for none.
pub proof fn lemma_gather_first_failure<A, B>(items: Seq<A>, f: spec_fn(A) -> Result<Seq<B>, Fault>)
    ensures
        match gather(items, f) {
            Ok(_) => forall|i: int| 0 <= i < items.len() ==> f(#[trigger] items[i]) is Ok,
            Err(e) => exists|i: int|
                0 <= i < items.len() && f(#[trigger] items[i]) == Err::<Seq<B>, Fault>(e)
                    && forall|j: int| 0 <= j < i ==> f(#[trigger] items[j]) is Ok,
        },
    decreases items.len(),
{
    if items.len() > 0 {
        let head = items.drop_last();
        lemma_gather_first_failure(head, f);
        match gather(head, f) {
            Ok(_) => {
                assert forall|j: int| 0 <= j < items.len() - 1 implies f(
                    #[trigger] items[j],
                ) is Ok by {
                    assert(head[j] == items[j]);
                }
                if let Err(e) = gather(items, f) {
                    assert(f(items[items.len() - 1]) == Err::<Seq<B>, Fault>(e));
                }
            },
            Err(e) => {
                let i = choose|i: int|
                    0 <= i < head.len() && f(#[trigger] head[i]) == Err::<Seq<B>, Fault>(e)
                        && forall|j: int| 0 <= j < i ==> f(#[trigger] head[j]) is Ok;
                assert(f(items[i]) == Err::<Seq<B>, Fault>(e));
                assert forall|j: int| 0 <= j < i implies f(#[trigger] items[j]) is Ok by {
                    assert(head[j] == items[j]);
                }
            },
        }
    }
}

/// How much `gather` yields before the item at `i`.
pub open spec fn yielded_before<A, B>(
    items: Seq<A>,
    f: spec_fn(A) -> Result<Seq<B>, Fault>,
    i: int,
) -> int {
    gather(items.take(i), f)->Ok_0.len() as int
}

/// Each thing that `gather` yields is what `f` yields in some place for some item, behind all that
/// comes of the items before.
pub proof fn lemma_gather_place<A, B>(
    items: Seq<A>,
    f: spec_fn(A) -> Result<Seq<B>, Fault>,
    p: int,
) -> (place: (int, int))
    requires
        gather(items, f) is Ok,
        0 <= p < gather(items, f)->Ok_0.len(),
    ensures
        0 <= place.0 < items.len(),
        f(items[place.0]) is Ok,
        0 <= place.1 < f(items[place.0])->Ok_0.len(),
        p == yielded_before(items, f, place.0) + place.1,
        gather(items, f)->Ok_0[p] == f(items[place.0])->Ok_0[place.1],
    decreases items.len(),
{
    let head = items.drop_last();
    let n = items.len() - 1;
    let done = gather(head, f)->Ok_0;
    if p < done.len() {
        let place = lemma_gather_place(head, f, p);
        assert(head.take(place.0) =~= items.take(place.0));
        assert(head[place.0] == items[place.0]);
        place
    } else {
        assert(items.take(n) =~= head);
        (n, p - done.len())
    }
}

/// What comes of an item stands, in its order, behind all that comes of the items before.
pub proof fn lemma_gather_at<A, B>(
    items: Seq<A>,
    f: spec_fn(A) -> Result<Seq<B>, Fault>,
    i: int,
    q: int,
)
    requires
        gather(items, f) is Ok,
        0 <= i < items.len(),
        f(items[i]) is Ok,
        0 <= q < f(items[i])->Ok_0.len(),
    ensures
        yielded_before(items, f, i) + q < gather(items, f)->Ok_0.len(),
        gather(items, f)->Ok_0[yielded_before(items, f, i) + q] == f(items[i])->Ok_0[q],
        0 <= yielded_before(items, f, i),
    decreases items.len(),
{
    let head = items.drop_last();
    if i < head.len() {
        assert(head[i] == items[i]);
        assert(head.take(i) =~= items.take(i));
        lemma_gather_at(head, f, i, q);
    } else {
        assert(items.take(i) =~= head);
    }
}

/// Of two items, all that comes of the earlier one stands before what comes of the later one.
pub proof fn lemma_gather_order<A, B>(
    items: Seq<A>,
    f: spec_fn(A) -> Result<Seq<B>, Fault>,
    i: int,
    k: int,
)
    requires
        gather(items, f) is Ok,
        0 <= i < k <= items.len(),
    ensures
        f(items[i]) is Ok,
        yielded_before(items, f, i) + f(items[i])->Ok_0.len() <= yielded_before(items, f, k),
    decreases k - i,
{
    lemma_gather_first_failure(items, f);
    lemma_gather_prefix(items, f, k);
    lemma_gather_prefix(items, f, k - 1);
    assert(items.take(k).drop_last() =~= items.take(k - 1));
    assert(items.take(k).last() == items[k - 1]);
    if i < k - 1 {
        lemma_gather_order(items, f, i, k - 1);
    }
}

/// Where `gather` succeeds, it does for the first items alone.
pub proof fn lemma_gather_prefix<A, B>(
    items: Seq<A>,
    f: spec_fn(A) -> Result<Seq<B>, Fault>,
    i: int,
)
    requires
        gather(items, f) is Ok,
        0 <= i <= items.len(),
    ensures
        gather(items.take(i), f) is Ok,
{
    if gather(items.take(i), f) is Err {
        lemma_gather_failed(items, f, i);
    }
}

/// Contracts speak of the items of a sequence one for one.
pub proof fn law_views<T: View>(s: Seq<T>, i: int)
    ensures
        views(s).len() == s.len(),
        0 <= i < s.len() ==> views(s)[i] == s[i]@,
{
}

} // verus!
