//! What a query answers, stated over the stored entities: which of them the
//! filters pick, how the picked ones are arranged, and which page of them is
//! handed back.

use vstd::prelude::*;
use crate::query::{all_pass, first_failure, ordered_by, refused, Comparator, Filter, Order, QuerySpec, filters_callable};

verus! {

/// `picked` lists, in increasing order, the positions of `stored` whose
/// entity every filter accepted; at every other position some filter
/// refused the entity after all earlier ones accepted it.
pub open spec fn selection<T>(stored: Seq<T>, filters: Seq<Filter<T>>, picked: Seq<usize>) -> bool {
    &&& forall|k: int| 0 <= k < picked.len() ==> #[trigger] picked[k] < stored.len()
    &&& forall|a: int, b: int| 0 <= a < b < picked.len() ==> #[trigger] picked[a] < #[trigger] picked[b]
    &&& forall|k: int| 0 <= k < picked.len() ==> all_pass(filters, &stored[#[trigger] picked[k] as int])
    &&& forall|i: int|
        #![trigger stored[i]]
        0 <= i < stored.len() && !picked.contains(i as usize) ==> refused(filters, &stored[i])
}

/// The comparison placed `a` before `b`: it ranked `a` below or level with
/// `b`, or it ranked `b` above `a`.
pub open spec fn placed_before<T>(by: Comparator<T>, a: &T, b: &T) -> bool {
    ||| by.gives(a, b, Order::Less)
    ||| by.gives(a, b, Order::Equal)
    ||| by.gives(b, a, Order::Greater)
}

/// The positions in `order` list their entities of `stored` so that each is
/// placed before the next by the comparison `by`.
pub open spec fn arranged<T>(stored: Seq<T>, order: Seq<usize>, by: Comparator<T>) -> bool {
    forall|k: int|
        0 <= k < order.len() - 1 ==> placed_before(
            by,
            &stored[#[trigger] order[k] as int],
            &stored[order[k + 1] as int],
        )
}

/// The page of `items` that remains after skipping `offset` of them and then
/// keeping at most `limit`.
pub open spec fn page<A>(items: Seq<A>, offset: usize, limit: Option<usize>) -> Seq<A> {
    let rest = if offset <= items.len() {
        items.skip(offset as int)
    } else {
        Seq::empty()
    };
    match limit {
        Some(n) => if n <= rest.len() {
            rest.take(n as int)
        } else {
            rest
        },
        None => rest,
    }
}

/// The item of `s` at position `k`.
pub open spec fn slot<A>(s: Seq<A>, k: usize) -> A {
    s[k as int]
}

/// The items of `s` from position `start` up to, not including, `end`.
pub open spec fn span<A>(s: Seq<A>, start: usize, end: usize) -> Seq<A> {
    s.subrange(start as int, end as int)
}

/// The entity of `stored` at position `p`.
pub open spec fn entity_at<T>(stored: Seq<T>, p: usize) -> T {
    stored[p as int]
}

/// The entities of `stored` at `positions`, in that order.
pub open spec fn pick<T>(stored: Seq<T>, positions: Seq<usize>) -> Seq<T> {
    positions.map_values(|p: usize| stored[p as int])
}

/// `copies` holds, position by position, a copy of each of `sources`.
pub open spec fn copies_of<T: Clone>(sources: Seq<T>, copies: Seq<T>) -> bool {
    &&& copies.len() == sources.len()
    &&& forall|k: int| 0 <= k < copies.len() ==> cloned(sources[k], #[trigger] copies[k])
}

/// `answer` is what `query` gives back over the entities `stored`: the
/// positions `picked` of the entities that pass every filter, arranged by the
/// query's comparison when it has one (in some order otherwise), then paged
/// by `offset` and `limit`; the answer holds a copy of each entity of the page.
pub open spec fn query_answer<T: Clone>(stored: Seq<T>, query: QuerySpec<T>, answer: Seq<T>) -> bool {
    exists|picked: Seq<usize>, order: Seq<usize>|
        {
            &&& selection(stored, query.filters@, picked)
            &&& order.to_multiset() == picked.to_multiset()
            &&& query.order_by matches Some(by) ==> arranged(stored, order, by)
            &&& copies_of(pick(stored, page(order, query.offset, query.limit)), answer)
        }
}

/// Every filter may be asked about every stored entity.
pub open spec fn filterable<T>(stored: Seq<T>, filters: Seq<Filter<T>>) -> bool {
    forall|i: int| 0 <= i < stored.len() ==> #[trigger] filters_callable(filters, &stored[i])
}

/// The comparison may be asked about every pair of stored entities.
pub open spec fn comparable<T>(stored: Seq<T>, by: Comparator<T>) -> bool {
    forall|i: int, j: int|
        0 <= i < stored.len() && 0 <= j < stored.len() ==> #[trigger] by.callable(
            &stored[i],
            &stored[j],
        )
}

/// [`selection`] restricted to the positions below `upto`.
pub open spec fn selection_upto<T>(
    stored: Seq<T>,
    filters: Seq<Filter<T>>,
    picked: Seq<usize>,
    upto: usize,
) -> bool {
    &&& forall|k: int| 0 <= k < picked.len() ==> #[trigger] picked[k] < upto
    &&& forall|a: int, b: int| 0 <= a < b < picked.len() ==> #[trigger] picked[a] < #[trigger] picked[b]
    &&& forall|k: int| 0 <= k < picked.len() ==> all_pass(filters, &stored[#[trigger] picked[k] as int])
    &&& forall|i: int|
        #![trigger stored[i]]
        0 <= i < upto && !picked.contains(i as usize) ==> refused(filters, &stored[i])
}

/// Extending a selection by position `upto`, picked or refused.
pub proof fn lemma_selection_step<T>(
    stored: Seq<T>,
    filters: Seq<Filter<T>>,
    picked: Seq<usize>,
    upto: usize,
    taken: bool,
)
    requires
        upto < stored.len(),
        upto < usize::MAX,
        selection_upto(stored, filters, picked, upto),
        taken ==> all_pass(filters, &stored[upto as int]),
        !taken ==> refused(filters, &stored[upto as int]),
    ensures
        selection_upto(
            stored,
            filters,
            if taken {
                picked.push(upto)
            } else {
                picked
            },
            (upto + 1) as usize,
        ),
{
    let next = if taken {
        picked.push(upto)
    } else {
        picked
    };
    assert forall|i: int|
        #![trigger stored[i]]
        0 <= i < upto + 1 && !next.contains(i as usize) implies refused(filters, &stored[i]) by {
        if i < upto {
            if picked.contains(i as usize) {
                let k = choose|k: int| 0 <= k < picked.len() && picked[k] == i as usize;
                assert(next[k] == picked[k]);
                assert(next.contains(i as usize));
            }
            assert(!picked.contains(i as usize));
            let _ = stored[i];
        } else {
            if taken {
                assert(next[picked.len() as int] == upto);
            }
            assert(i == upto);
        }
    }
    assert forall|k: int| 0 <= k < next.len() implies #[trigger] next[k] < upto + 1 by {
        if k < picked.len() {
            assert(next[k] == picked[k]);
        }
    }
    assert forall|a: int, b: int| 0 <= a < b < next.len() implies #[trigger] next[a] < #[trigger] next[b] by {
        assert(next[a] == picked[a]);
        if b < picked.len() {
            assert(next[b] == picked[b]);
        }
    }
    assert forall|k: int| 0 <= k < next.len() implies all_pass(filters, &stored[#[trigger] next[k] as int]) by {
        if k < picked.len() {
            assert(next[k] == picked[k]);
        }
    }
}

/// A completed [`selection_upto`] is a [`selection`].
pub proof fn lemma_selection_done<T>(stored: Seq<T>, filters: Seq<Filter<T>>, picked: Seq<usize>)
    requires
        stored.len() <= usize::MAX,
        selection_upto(stored, filters, picked, stored.len() as usize),
    ensures
        selection(stored, filters, picked),
{
    assert forall|i: int|
        #![trigger stored[i]]
        0 <= i < stored.len() && !picked.contains(i as usize) implies refused(filters, &stored[i]) by {
        let _ = stored[i];
    }
    assert(forall|k: int| 0 <= k < picked.len() ==> #[trigger] picked[k] < stored.len());
    assert(forall|a: int, b: int| 0 <= a < b < picked.len() ==> #[trigger] picked[a] < #[trigger] picked[b]);
    assert(forall|k: int| 0 <= k < picked.len() ==> all_pass(filters, &stored[#[trigger] picked[k] as int]));
}

/// Inserting `x` at `j` keeps an arrangement when the comparison placed the
/// entity before `j` ahead of `x`, and ranked the entity at `j` above `x`.
pub proof fn lemma_arranged_insert<T>(
    stored: Seq<T>,
    order: Seq<usize>,
    j: int,
    x: usize,
    p: Comparator<T>,
)
    requires
        arranged(stored, order, p),
        0 <= j <= order.len(),
        j > 0 ==> placed_before(p, &stored[order[j - 1] as int], &stored[x as int]),
        j < order.len() ==> p.gives(&stored[order[j] as int], &stored[x as int], Order::Greater),
    ensures
        arranged(stored, order.insert(j, x), p),
{
    let next = order.insert(j, x);
    assert forall|k: int| 0 <= k < next.len() - 1 implies placed_before(
        p,
        &stored[#[trigger] next[k] as int],
        &stored[next[k + 1] as int],
    ) by {
        if k < j - 1 {
            assert(next[k] == order[k]);
            assert(next[k + 1] == order[k + 1]);
        } else if k == j - 1 {
            assert(next[k] == order[j - 1]);
            assert(next[k + 1] == x);
        } else if k == j {
            assert(next[k] == x);
            assert(next[k + 1] == order[j]);
        } else {
            assert(next[k] == order[k - 1]);
            assert(next[k + 1] == order[k]);
        }
    }
}

/// The bounds `(start, end)` of the page of a list of `len` items that
/// skips `offset` of them and keeps at most `limit`.
pub fn page_bounds(len: usize, offset: usize, limit: Option<usize>) -> (r: (usize, usize))
    ensures
        r.0 <= r.1 <= len,
        forall|items: Seq<usize>|
            items.len() == len ==> page(items, offset, limit) == items.subrange(
                r.0 as int,
                r.1 as int,
            ),
{
    let start = if offset <= len {
        offset
    } else {
        len
    };
    let available = len - start;
    let count = match limit {
        Some(n) => if n <= available {
            n
        } else {
            available
        },
        None => available,
    };
    assert forall|items: Seq<usize>| items.len() == len implies page(items, offset, limit)
        == items.subrange(start as int, (start + count) as int) by {
        let rest = if offset <= items.len() {
            items.skip(offset as int)
        } else {
            Seq::empty()
        };
        assert(rest =~= items.subrange(start as int, len as int));
        match limit {
            Some(n) => {
                if n <= rest.len() {
                    assert(rest.take(n as int) =~= items.subrange(
                        start as int,
                        (start + count) as int,
                    ));
                } else {
                    assert(rest =~= items.subrange(start as int, (start + count) as int));
                }
            },
            None => {},
        }
    }
    (start, start + count)
}


/// How many items a page of `n` items holds once `offset` of them are
/// skipped and at most `limit` kept.
pub open spec fn page_len(n: nat, offset: usize, limit: Option<usize>) -> nat {
    let rest: nat = if offset <= n {
        (n - offset) as nat
    } else {
        0
    };
    match limit {
        Some(l) => if l <= rest {
            l as nat
        } else {
            rest
        },
        None => rest,
    }
}

/// The positions `0, 1, ..., n - 1`, in order.
pub open spec fn all_positions(n: nat) -> Seq<usize> {
    Seq::new(n, |i: int| i as usize)
}

/// The page of a list has the length [`page_len`] says.
proof fn lemma_page_len<A>(items: Seq<A>, offset: usize, limit: Option<usize>)
    ensures
        page(items, offset, limit).len() == page_len(items.len(), offset, limit),
{
}

/// A page of an arrangement is itself arranged.
proof fn lemma_page_arranged<T>(
    stored: Seq<T>,
    order: Seq<usize>,
    offset: usize,
    limit: Option<usize>,
    by: Comparator<T>,
)
    requires
        arranged(stored, order, by),
    ensures
        arranged(stored, page(order, offset, limit), by),
{
    let rest = if offset <= order.len() {
        order.skip(offset as int)
    } else {
        Seq::empty()
    };
    let start: int = if offset <= order.len() {
        offset as int
    } else {
        order.len() as int
    };
    assert forall|k: int| 0 <= k < rest.len() - 1 implies placed_before(
        by,
        &stored[#[trigger] rest[k] as int],
        &stored[rest[k + 1] as int],
    ) by {
        assert(rest[k] == order[start + k]);
        assert(rest[k + 1] == order[start + k + 1]);
    }
    let window = page(order, offset, limit);
    assert forall|k: int| 0 <= k < window.len() - 1 implies placed_before(
        by,
        &stored[#[trigger] window[k] as int],
        &stored[window[k + 1] as int],
    ) by {
        assert(window[k] == rest[k]);
        assert(window[k + 1] == rest[k + 1]);
    }
}

/// With no filters, a selection picks every position, in order.
proof fn lemma_select_all<T>(stored: Seq<T>, filters: Seq<Filter<T>>, picked: Seq<usize>)
    requires
        stored.len() <= usize::MAX,
        filters.len() == 0,
        selection(stored, filters, picked),
    ensures
        picked == all_positions(stored.len()),
{
    assert forall|i: usize| i < stored.len() implies #[trigger] picked.contains(i) by {
        let _ = stored[i as int];
        if !picked.contains(i) {
            let f = choose|f: int| first_failure(filters, &stored[i as int], f);
            assert(first_failure(filters, &stored[i as int], f));
        }
    }
    lemma_increasing_from_zero(stored, picked, 0);
    if stored.len() > 0 {
        let last = (stored.len() - 1) as usize;
        assert(picked.contains(last));
        let m = choose|m: int| 0 <= m < picked.len() && picked[m] == last;
        assert(picked[m] == m);
    }
    if picked.len() > stored.len() {
        assert(picked[stored.len() as int] == stored.len());
    }
    assert(picked.len() == stored.len());
    assert(picked =~= all_positions(stored.len()));
}

/// An increasing list of positions below `n` that holds every position
/// below `n` holds position `k` at index `k`, for every index from `k` on.
proof fn lemma_increasing_from_zero<T>(stored: Seq<T>, picked: Seq<usize>, k: int)
    requires
        0 <= k,
        forall|j: int| 0 <= j < picked.len() ==> #[trigger] picked[j] < stored.len(),
        forall|a: int, b: int| 0 <= a < b < picked.len() ==> #[trigger] picked[a] < #[trigger] picked[b],
        forall|i: usize| i < stored.len() ==> #[trigger] picked.contains(i),
        forall|j: int| 0 <= j < k && j < picked.len() ==> #[trigger] picked[j] == j,
    ensures
        forall|j: int| 0 <= j < picked.len() ==> #[trigger] picked[j] == j,
    decreases picked.len() - k,
{
    if k < picked.len() {
        if k > 0 {
            assert(picked[k - 1] == k - 1);
            assert(picked[k - 1] < picked[k]);
        }
        assert(picked[k] >= k);
        if picked[k] > k {
            assert(k < stored.len());
            assert(picked.contains(k as usize));
            let m = choose|m: int| 0 <= m < picked.len() && picked[m] == k as usize;
            if m < k {
                assert(picked[m] == m);
            } else if m > k {
                assert(picked[k] < picked[m]);
            }
        }
        lemma_increasing_from_zero(stored, picked, k + 1);
    }
}

/// A query never answers more than its limit: if `m` stored entities pass
/// the filters, the answer holds `m - offset` of them (none when `offset`
/// exceeds `m`), and at most `limit`.
pub proof fn law_answer_size<T: Clone>(stored: Seq<T>, query: QuerySpec<T>, answer: Seq<T>)
    requires
        query_answer(stored, query, answer),
    ensures
        exists|picked: Seq<usize>|
            selection(stored, query.filters@, picked) && answer.len() == page_len(
                picked.len(),
                query.offset,
                query.limit,
            ),
        query.limit matches Some(l) ==> answer.len() <= l,
{
    let (picked, order) = choose|picked: Seq<usize>, order: Seq<usize>|
        {
            &&& selection(stored, query.filters@, picked)
            &&& order.to_multiset() == picked.to_multiset()
            &&& query.order_by matches Some(by) ==> arranged(stored, order, by)
            &&& copies_of(pick(stored, page(order, query.offset, query.limit)), answer)
        };
    order.to_multiset_ensures();
    picked.to_multiset_ensures();
    lemma_page_len(order, query.offset, query.limit);
}

/// The answer of an ordered query comes sorted: it holds copies of entities
/// that the query's comparison places each before the next.
pub proof fn law_sorted_answer<T: Clone>(stored: Seq<T>, query: QuerySpec<T>, answer: Seq<T>)
    requires
        query_answer(stored, query, answer),
        query.order_by is Some,
    ensures
        exists|window: Seq<usize>|
            arranged(stored, window, query.order_by->0) && copies_of(pick(stored, window), answer),
{
    let (picked, order) = choose|picked: Seq<usize>, order: Seq<usize>|
        {
            &&& selection(stored, query.filters@, picked)
            &&& order.to_multiset() == picked.to_multiset()
            &&& query.order_by matches Some(by) ==> arranged(stored, order, by)
            &&& copies_of(pick(stored, page(order, query.offset, query.limit)), answer)
        };
    lemma_page_arranged(stored, order, query.offset, query.limit, query.order_by->0);
}

/// A query with no filters, no ordering, no offset and no limit (what
/// `QuerySpec::new()` builds) answers a copy of every stored entity, each
/// exactly once, in some order.
pub proof fn law_plain_query_answers_everything<T: Clone>(
    stored: Seq<T>,
    query: QuerySpec<T>,
    answer: Seq<T>,
)
    requires
        stored.len() <= usize::MAX,
        query.filters@.len() == 0,
        query.order_by is None,
        query.offset == 0,
        query.limit is None,
        query_answer(stored, query, answer),
    ensures
        answer.len() == stored.len(),
        exists|order: Seq<usize>|
            order.to_multiset() == all_positions(stored.len()).to_multiset() && copies_of(
                pick(stored, order),
                answer,
            ),
{
    let (picked, order) = choose|picked: Seq<usize>, order: Seq<usize>|
        {
            &&& selection(stored, query.filters@, picked)
            &&& order.to_multiset() == picked.to_multiset()
            &&& query.order_by matches Some(by) ==> arranged(stored, order, by)
            &&& copies_of(pick(stored, page(order, query.offset, query.limit)), answer)
        };
    lemma_select_all(stored, query.filters@, picked);
    assert(page(order, query.offset, query.limit) =~= order);
    order.to_multiset_ensures();
    picked.to_multiset_ensures();
}
/// Paging skips `offset` items and keeps the first `limit` of the rest:
/// the page is the run of items that starts at position `offset`, and it is
/// `limit` long when that many items follow the offset, else it runs to the
/// end (and is empty when the offset is past the end).
pub proof fn law_page_front<A>(items: Seq<A>, offset: usize, limit: Option<usize>)
    ensures
        page(items, offset, limit).len() == (if offset >= items.len() {
            0int
        } else {
            match limit {
                Some(n) => if offset + n <= items.len() {
                    n as int
                } else {
                    items.len() - offset
                },
                None => items.len() - offset,
            }
        }),
        forall|k: int|
            0 <= k < page(items, offset, limit).len() ==> #[trigger] page(items, offset, limit)[k]
                == items[offset + k],
{
}

/// The selection and arrangement behind a query's answer, with the
/// ordering it follows when the query sorts by `by`.
proof fn lemma_answer_witness<T: Clone>(
    stored: Seq<T>,
    query: QuerySpec<T>,
    answer: Seq<T>,
    by: Comparator<T>,
) -> (w: (Seq<usize>, Seq<usize>))
    requires
        query_answer(stored, query, answer),
    ensures
        selection(stored, query.filters@, w.0),
        w.1.to_multiset() == w.0.to_multiset(),
        ordered_by(query, by) ==> arranged(stored, w.1, by),
        copies_of(pick(stored, page(w.1, query.offset, query.limit)), answer),
{
    choose|picked: Seq<usize>, order: Seq<usize>|
        {
            &&& selection(stored, query.filters@, picked)
            &&& order.to_multiset() == picked.to_multiset()
            &&& query.order_by matches Some(c) ==> arranged(stored, order, c)
            &&& copies_of(pick(stored, page(order, query.offset, query.limit)), answer)
        }
}

/// A query answers the front of what remains after the offset: the `k`-th
/// entity of the answer is a copy of the entity at position `offset + k` of
/// the arrangement of the selected entities (sorted by `by` when the query
/// sorts by it), and the answer holds `limit` entities when that many
/// follow the offset, else all that follow it.
pub proof fn law_answer_is_front<T: Clone>(
    stored: Seq<T>,
    query: QuerySpec<T>,
    answer: Seq<T>,
    by: Comparator<T>,
)
    requires
        query_answer(stored, query, answer),
    ensures
        exists|picked: Seq<usize>, order: Seq<usize>|
            {
                &&& selection(stored, query.filters@, picked)
                &&& order.to_multiset() == picked.to_multiset()
                &&& ordered_by(query, by) ==> arranged(stored, order, by)
                &&& answer.len() == (if query.offset >= order.len() {
                    0int
                } else {
                    match query.limit {
                        Some(n) => if query.offset + n <= order.len() {
                            n + 0int
                        } else {
                            order.len() - query.offset
                        },
                        None => order.len() - query.offset,
                    }
                })
                &&& forall|k: int|
                    0 <= k < answer.len() ==> cloned(
                        entity_at(stored, order[query.offset + k]),
                        #[trigger] answer[k],
                    )
            },
{
    let (picked, order) = lemma_answer_witness(stored, query, answer, by);
    law_page_front(order, query.offset, query.limit);
    let window = page(order, query.offset, query.limit);
    assert forall|k: int| 0 <= k < answer.len() implies cloned(
        entity_at(stored, order[query.offset + k]),
        #[trigger] answer[k],
    ) by {
        assert(window[k] == order[query.offset + k]);
        assert(pick(stored, window)[k] == entity_at(stored, window[k]));
    }
}

} // verus!
verus! {
/// A comparison that may be asked about every pair of stored entities may be
/// asked about the pair at `i` and `j`.
pub proof fn lemma_comparable_at<T>(stored: Seq<T>, by: Comparator<T>, i: int, j: int)
    requires
        comparable(stored, by),
        0 <= i < stored.len(),
        0 <= j < stored.len(),
    ensures
        by.callable(&stored[i], &stored[j]),
{
}
}
