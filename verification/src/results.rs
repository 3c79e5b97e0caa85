//! Outcomes of work on many items: the first complaint, or all results.

use vstd::prelude::*;

use crate::error::Fault;

verus! {

/// The complaint about the first of the items that `check` complains about.
pub open spec fn first_fault<A>(
    items: Seq<A>,
    check: spec_fn(A) -> Option<Fault>,
) -> Option<Fault>
    decreases items.len(),
{
    if items.len() == 0 {
        None
    } else {
        match check(items[0]) {
            Some(message) => Some(message),
            None => first_fault(items.skip(1), check),
        }
    }
}

/// The complaint about the first of the items that `check` complains
/// about; `check` also sees the position, counted from `from`.
pub open spec fn first_fault_from<A>(
    items: Seq<A>,
    from: int,
    check: spec_fn(int, A) -> Option<Fault>,
) -> Option<Fault>
    decreases items.len(),
{
    if items.len() == 0 {
        None
    } else {
        match check(from, items[0]) {
            Some(message) => Some(message),
            None => first_fault_from(items.skip(1), from + 1, check),
        }
    }
}

/// The results of `f` on all items, each with its position, if all
/// succeed; else the first failure.
pub open spec fn collected<A, B>(
    items: Seq<A>,
    f: spec_fn(int, A) -> Result<B, Fault>,
) -> Result<Seq<B>, Fault>
    decreases items.len(),
{
    if items.len() == 0 {
        Ok(Seq::empty())
    } else {
        match collected(items.drop_last(), f) {
            Err(e) => Err(e),
            Ok(done) => match f(items.len() - 1, items.last()) {
                Err(e) => Err(e),
                Ok(b) => Ok(done.push(b)),
            },
        }
    }
}

/// No complaint about a list means none about any of its items.
pub proof fn lemma_no_fault<A>(items: Seq<A>, check: spec_fn(A) -> Option<Fault>)
    ensures
        first_fault(items, check) is None <==> forall|i: int|
            0 <= i < items.len() ==> check(#[trigger] items[i]) is None,
    decreases items.len(),
{
    if items.len() > 0 {
        lemma_no_fault(items.skip(1), check);
        if first_fault(items, check) is None {
            assert forall|i: int| 0 <= i < items.len() implies check(
                #[trigger] items[i],
            ) is None by {
                if i > 0 {
                    assert(items.skip(1)[i - 1] == items[i]);
                }
            }
        }
        if forall|i: int| 0 <= i < items.len() ==> check(#[trigger] items[i]) is None {
            assert forall|i: int| 0 <= i < items.skip(1).len() implies check(
                #[trigger] items.skip(1)[i],
            ) is None by {
                assert(items.skip(1)[i] == items[i + 1]);
            }
        }
    }
}

/// No complaint about a list means none about any of its items, each at
/// its position.
pub proof fn lemma_no_fault_from<A>(
    items: Seq<A>,
    from: int,
    check: spec_fn(int, A) -> Option<Fault>,
)
    ensures
        first_fault_from(items, from, check) is None <==> forall|i: int|
            0 <= i < items.len() ==> check(from + i, #[trigger] items[i]) is None,
    decreases items.len(),
{
    if items.len() > 0 {
        lemma_no_fault_from(items.skip(1), from + 1, check);
        if first_fault_from(items, from, check) is None {
            assert forall|i: int| 0 <= i < items.len() implies check(
                from + i,
                #[trigger] items[i],
            ) is None by {
                if i > 0 {
                    assert(items.skip(1)[i - 1] == items[i]);
                }
            }
        }
        if forall|i: int| 0 <= i < items.len() ==> check(from + i, #[trigger] items[i]) is None {
            assert(check(from + 0, items[0]) is None);
            assert forall|i: int| 0 <= i < items.skip(1).len() implies check(
                from + 1 + i,
                #[trigger] items.skip(1)[i],
            ) is None by {
                assert(items.skip(1)[i] == items[i + 1]);
                assert(check(from + (i + 1), items[i + 1]) is None);
            }
        }
    }
}

/// A failure among the first items is the failure of them all.
pub proof fn lemma_collected_fails<A, B>(
    items: Seq<A>,
    f: spec_fn(int, A) -> Result<B, Fault>,
    n: int,
)
    requires
        0 <= n <= items.len(),
        collected(items.take(n), f) is Err,
    ensures
        collected(items, f) == Err::<Seq<B>, Fault>(collected(items.take(n), f)->Err_0),
    decreases items.len(),
{
    if n == items.len() {
        assert(items.take(n) == items);
    } else {
        assert(items.drop_last().take(n) == items.take(n));
        lemma_collected_fails(items.drop_last(), f, n);
    }
}

/// One more item at the end.
pub proof fn lemma_collected_next<A, B>(
    items: Seq<A>,
    f: spec_fn(int, A) -> Result<B, Fault>,
    n: int,
)
    requires
        0 <= n < items.len(),
        collected(items.take(n), f) is Ok,
    ensures
        match f(n, items[n]) {
            Ok(b) => collected(items.take(n + 1), f) == Ok::<Seq<B>, Fault>(
                collected(items.take(n), f)->Ok_0.push(b),
            ),
            Err(e) => collected(items, f) == Err::<Seq<B>, Fault>(e),
        },
{
    let more = items.take(n + 1);
    assert(more.drop_last() == items.take(n));
    assert(more.last() == items[n]);
    if f(n, items[n]) is Err {
        lemma_collected_fails(items, f, n + 1);
    }
}

/// All results, item by item.
pub proof fn lemma_collected_items<A, B>(
    items: Seq<A>,
    f: spec_fn(int, A) -> Result<B, Fault>,
)
    requires
        collected(items, f) is Ok,
    ensures
        collected(items, f)->Ok_0.len() == items.len(),
        forall|i: int|
            0 <= i < items.len() ==> f(i, items[i]) == Ok::<B, Fault>(
                #[trigger] collected(items, f)->Ok_0[i],
            ),
    decreases items.len(),
{
    if items.len() > 0 {
        lemma_collected_items(items.drop_last(), f);
        let done = collected(items.drop_last(), f)->Ok_0;
        assert forall|i: int| 0 <= i < items.len() implies f(i, items[i]) == Ok::<B, Fault>(
            #[trigger] collected(items, f)->Ok_0[i],
        ) by {
            if i < items.len() - 1 {
                assert(done[i] == collected(items, f)->Ok_0[i]);
                assert(items.drop_last()[i] == items[i]);
            }
        }
    }
}

/// All results are there if each one is.
pub proof fn lemma_collected_ok<A, B>(
    items: Seq<A>,
    f: spec_fn(int, A) -> Result<B, Fault>,
)
    requires
        forall|i: int| 0 <= i < items.len() ==> f(i, #[trigger] items[i]) is Ok,
    ensures
        collected(items, f) is Ok,
    decreases items.len(),
{
    if items.len() > 0 {
        assert forall|i: int| 0 <= i < items.drop_last().len() implies f(
            i,
            #[trigger] items.drop_last()[i],
        ) is Ok by {
            assert(items.drop_last()[i] == items[i]);
        }
        lemma_collected_ok(items.drop_last(), f);
        assert(f(items.len() - 1, items[items.len() - 1]) is Ok);
    }
}

} // verus!
