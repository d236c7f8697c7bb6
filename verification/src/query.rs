//! A composable, side-effect-free description of a query: filters, an
//! optional ordering, and paging.

use vstd::prelude::*;

verus! {

/// A predicate on entities held by a runtime filter. Every closure
/// `Fn(&T) -> bool` is one.
///
/// `holds(e, verdict)` says that `verdict` is an answer the predicate can give
/// for `e`; for a closure that is its `call_ensures`.
pub trait EntityPredicate<T>: Send + Sync {
    spec fn callable(&self, e: &T) -> bool;

    spec fn holds(&self, e: &T, verdict: bool) -> bool;

    fn test(&self, e: &T) -> (r: bool)
        requires
            self.callable(e),
        ensures
            self.holds(e, r),
    ;
}

impl<T, F: Fn(&T) -> bool + Send + Sync> EntityPredicate<T> for F {
    open spec fn callable(&self, e: &T) -> bool {
        call_requires(*self, (e,))
    }

    open spec fn holds(&self, e: &T, verdict: bool) -> bool {
        call_ensures(*self, (e,), verdict)
    }

    fn test(&self, e: &T) -> (r: bool) {
        (self)(e)
    }
}

/// Placeholder for typed predicates: it has no inhabitable variant, so no
/// typed filter can ever be built.
pub enum TypedFilter<T> {
    _Phantom(core::marker::PhantomData<T>, core::convert::Infallible),
}

/// A single filter on entities of type `T`.
#[verifier::reject_recursive_types(T)]
pub enum Filter<T> {
    /// A runtime predicate (a closure).
    Runtime(Box<dyn EntityPredicate<T>>),
    /// A typed predicate; none can be constructed yet.
    Typed(TypedFilter<T>),
}

/// `filter` is a runtime filter that asks the closure `f`.
pub open spec fn asks<T, F: Fn(&T) -> bool>(filter: Filter<T>, f: F) -> bool {
    filter matches Filter::Runtime(p) && (forall|e: &T, verdict: bool|
        #[trigger] p.holds(e, verdict) == call_ensures(f, (e,), verdict)) && (forall|e: &T|
        #[trigger] p.callable(e) == call_requires(f, (e,)))
}

impl<T> Filter<T> {
    /// A runtime filter that asks the closure `f`.
    fn runtime<F: Fn(&T) -> bool + Send + Sync + 'static>(f: F) -> (r: Filter<T>)
        ensures
            asks(r, f),
    {
        Filter::Runtime(Box::new(f))
    }
}

/// `verdict` is an answer that filter `f` can give for `e`. A typed filter
/// cannot be built; were one to exist, it would exclude nothing.
pub open spec fn filter_gives<T>(f: &Filter<T>, e: &T, verdict: bool) -> bool {
    match f {
        Filter::Runtime(p) => p.holds(e, verdict),
        Filter::Typed(_) => verdict,
    }
}

/// Filter `f` may be asked about `e`.
pub open spec fn filter_callable<T>(f: &Filter<T>, e: &T) -> bool {
    match f {
        Filter::Runtime(p) => p.callable(e),
        Filter::Typed(_) => true,
    }
}

/// The outcome of comparing two entities.
#[derive(Clone, Copy, PartialEq, Eq, Structural)]
pub enum Order {
    Less,
    Equal,
    Greater,
}

/// A comparison between entities held by a query's ordering. Every closure
/// `Fn(&T, &T) -> Order` is one.
///
/// `gives(a, b, o)` says that `o` is an answer the comparison can give for
/// `(a, b)`; for a closure that is its `call_ensures`.
pub trait EntityOrder<T>: Send + Sync {
    spec fn callable(&self, a: &T, b: &T) -> bool;

    spec fn gives(&self, a: &T, b: &T, o: Order) -> bool;

    fn compare(&self, a: &T, b: &T) -> (o: Order)
        requires
            self.callable(a, b),
        ensures
            self.gives(a, b, o),
    ;
}

impl<T, F: Fn(&T, &T) -> Order + Send + Sync> EntityOrder<T> for F {
    open spec fn callable(&self, a: &T, b: &T) -> bool {
        call_requires(*self, (a, b))
    }

    open spec fn gives(&self, a: &T, b: &T, o: Order) -> bool {
        call_ensures(*self, (a, b), o)
    }

    fn compare(&self, a: &T, b: &T) -> (o: Order) {
        (self)(a, b)
    }
}

/// The [`Order`] that stands for a standard ordering.
pub open spec fn order_of(o: core::cmp::Ordering) -> Order {
    match o {
        core::cmp::Ordering::Less => Order::Less,
        core::cmp::Ordering::Equal => Order::Equal,
        core::cmp::Ordering::Greater => Order::Greater,
    }
}

/// The comparison by which a query sorts its results.
#[verifier::reject_recursive_types(T)]
pub struct Comparator<T> {
    order: Box<dyn EntityOrder<T>>,
}

impl<T> Comparator<T> {
    /// The comparison may be asked about `(a, b)`.
    pub closed spec fn callable(&self, a: &T, b: &T) -> bool {
        self.order.callable(a, b)
    }

    /// `o` is an answer the comparison can give for `(a, b)`.
    pub closed spec fn gives(&self, a: &T, b: &T, o: Order) -> bool {
        self.order.gives(a, b, o)
    }

    /// Compares `a` with `b`.
    pub fn compare(&self, a: &T, b: &T) -> (o: Order)
        requires
            self.callable(a, b),
        ensures
            self.gives(a, b, o),
    {
        self.order.compare(a, b)
    }

    /// A comparator that asks the closure `f`.
    fn of<F: Fn(&T, &T) -> Order + Send + Sync + 'static>(f: F) -> (r: Option<Comparator<T>>)
        ensures
            r matches Some(c) && (forall|a: &T, b: &T| #[trigger] c.callable(a, b) == call_requires(f, (a, b)))
                && (forall|a: &T, b: &T, o: Order| #[trigger] c.gives(a, b, o) == call_ensures(f, (a, b), o)),
    {
        Some(Comparator { order: Box::new(f) })
    }
}

/// `c` answers as the standard comparison `compare` does: it may be asked
/// wherever `compare` may, and each of its answers stands for one of
/// `compare`'s.
pub open spec fn orders_by<T, C: Fn(&T, &T) -> core::cmp::Ordering>(
    c: Comparator<T>,
    compare: C,
) -> bool {
    &&& forall|a: &T, b: &T| call_requires(compare, (a, b)) ==> #[trigger] c.callable(a, b)
    &&& forall|a: &T, b: &T, o: Order| #[trigger]
        c.gives(a, b, o) ==> exists|std_order: core::cmp::Ordering|
            call_ensures(compare, (a, b), std_order) && o == order_of(std_order)
}

fn order_from(o: core::cmp::Ordering) -> (r: Order)
    ensures
        r == order_of(o),
{
    match o {
        core::cmp::Ordering::Less => Order::Less,
        core::cmp::Ordering::Equal => Order::Equal,
        core::cmp::Ordering::Greater => Order::Greater,
    }
}

/// A composable description of a query against a repository.
#[verifier::reject_recursive_types(T)]
pub struct QuerySpec<T> {
    pub filters: Vec<Filter<T>>,
    pub order_by: Option<Comparator<T>>,
    pub limit: Option<usize>,
    pub offset: usize,
}

/// Every filter of `filters` may be asked about `e`.
pub open spec fn filters_callable<T>(filters: Seq<Filter<T>>, e: &T) -> bool {
    forall|i: int| 0 <= i < filters.len() ==> filter_callable(&#[trigger] filters[i], e)
}

/// Every filter answered `true` for `e`.
pub open spec fn all_pass<T>(filters: Seq<Filter<T>>, e: &T) -> bool {
    forall|i: int| 0 <= i < filters.len() ==> filter_gives(&#[trigger] filters[i], e, true)
}

/// Filter `i` answered `false` for `e` after every earlier one answered
/// `true`.
pub open spec fn first_failure<T>(filters: Seq<Filter<T>>, e: &T, i: int) -> bool {
    &&& 0 <= i < filters.len()
    &&& filter_gives(&filters[i], e, false)
    &&& forall|j: int| 0 <= j < i ==> filter_gives(&#[trigger] filters[j], e, true)
}

/// Some filter refused `e`: it answered `false` after every earlier one
/// answered `true`.
pub open spec fn refused<T>(filters: Seq<Filter<T>>, e: &T) -> bool {
    exists|i: int| first_failure(filters, e, i)
}

impl<T> QuerySpec<T> {
    /// A query with no filters, no ordering, no limit and no offset.
    pub fn new() -> (r: Self)
        ensures
            r.filters@.len() == 0,
            r.order_by is None,
            r.limit is None,
            r.offset == 0,
    {
        QuerySpec { filters: Vec::new(), order_by: None, limit: None, offset: 0 }
    }

    /// Adds a runtime filter closure after the existing ones.
    pub fn filter_runtime<F: Fn(&T) -> bool + Send + Sync + 'static>(self, f: F) -> (r: Self)
        ensures
            r.filters@.len() == self.filters@.len() + 1,
            r.filters@.drop_last() == self.filters@,
            asks(r.filters@.last(), f),
            r.order_by == self.order_by,
            r.limit == self.limit,
            r.offset == self.offset,
    {
        let mut q = self;
        q.filters.push(Filter::runtime(f));
        assert(q.filters@.drop_last() =~= self.filters@);
        q
    }

    /// Returns the query whose results are sorted by `compare`.
    pub fn order_by<C: Fn(&T, &T) -> core::cmp::Ordering + Send + Sync + 'static>(
        self,
        compare: C,
    ) -> (r: Self)
        ensures
            r.filters == self.filters,
            r.order_by matches Some(p) && orders_by(p, compare),
            r.limit == self.limit,
            r.offset == self.offset,
    {
        let spec_compare = Ghost(compare);
        let compare_fn = compare;
        let ranked = move |a: &T, b: &T| -> (o: Order)
            requires
                call_requires(spec_compare@, (a, b)),
            ensures
                exists|std_order: core::cmp::Ordering|
                    call_ensures(spec_compare@, (a, b), std_order) && o == order_of(std_order),
            {
                let x = compare_fn(a, b);
                order_from(x)
            };
        let ordering = Comparator::of(ranked);
        assert(spec_compare@ == compare);
        let mut q = self;
        q.order_by = ordering;
        q
    }

    /// Returns the query with at most `n` results.
    pub fn limit(self, n: usize) -> (r: Self)
        ensures
            r.filters == self.filters,
            r.order_by == self.order_by,
            r.limit == Some(n),
            r.offset == self.offset,
    {
        let mut q = self;
        q.limit = Some(n);
        q
    }

    /// Returns the query that skips the first `n` results.
    pub fn offset(self, n: usize) -> (r: Self)
        ensures
            r.filters == self.filters,
            r.order_by == self.order_by,
            r.limit == self.limit,
            r.offset == n,
    {
        let mut q = self;
        q.offset = n;
        q
    }

    /// Whether `entity` passes every filter. The filters are asked in order
    /// and asking stops at the first one that answers `false`.
    pub fn matches(&self, entity: &T) -> (r: bool)
        requires
            filters_callable(self.filters@, entity),
        ensures
            r ==> all_pass(self.filters@, entity),
            !r ==> refused(self.filters@, entity),
    {
        let n = self.filters.len();
        let mut i: usize = 0;
        while i < n
            invariant
                n == self.filters@.len(),
                i <= n,
                filters_callable(self.filters@, entity),
                forall|j: int| 0 <= j < i ==> filter_gives(&#[trigger] self.filters@[j], entity, true),
            decreases n - i,
        {
            match &self.filters[i] {
                Filter::Runtime(p) => {
                    assert(filter_callable(&self.filters@[i as int], entity));
                    if !p.test(entity) {
                        assert(first_failure(self.filters@, entity, i as int));
                        return false;
                    }
                },
                Filter::Typed(_) => {},
            }
            i = i + 1;
        }
        true
    }
}

impl<T> Default for QuerySpec<T> {
    /// The query with no filters, no ordering, no limit and no offset.
    fn default() -> (r: Self)
        ensures
            r.filters@.len() == 0,
            r.order_by is None,
            r.limit is None,
            r.offset == 0,
    {
        Self::new()
    }
}

/// The query sorts its results by the comparison `by`.
pub open spec fn ordered_by<T>(query: QuerySpec<T>, by: Comparator<T>) -> bool {
    query.order_by == Some(by)
}

/// A query without filters lets every entity through: whatever `matches`
/// answers for it is `true`.
pub proof fn law_no_filters_match_everything<T>(filters: Seq<Filter<T>>, e: &T, r: bool)
    requires
        filters.len() == 0,
        r ==> all_pass(filters, e),
        !r ==> refused(filters, e),
    ensures
        r,
{
    if !r {
        let i = choose|i: int| first_failure(filters, e, i);
        assert(first_failure(filters, e, i));
    }
}

/// Filters combine by conjunction: an entity passes a query with one more
/// filter exactly when it passes the query without it and the added filter.
pub proof fn law_filters_conjoin<T>(filters: Seq<Filter<T>>, f: Filter<T>, e: &T)
    ensures
        all_pass(filters.push(f), e) <==> all_pass(filters, e) && filter_gives(&f, e, true),
{
    let more = filters.push(f);
    if all_pass(more, e) {
        assert forall|i: int| 0 <= i < filters.len() implies filter_gives(
            &#[trigger] filters[i],
            e,
            true,
        ) by {
            assert(more[i] == filters[i]);
            assert(filter_gives(&more[i], e, true));
        }
        assert(more[filters.len() as int] == f);
        assert(filter_gives(&more[filters.len() as int], e, true));
    }
    if all_pass(filters, e) && filter_gives(&f, e, true) {
        assert forall|i: int| 0 <= i < more.len() implies filter_gives(&#[trigger] more[i], e, true) by {
            if i < filters.len() {
                assert(more[i] == filters[i]);
            } else {
                assert(more[i] == f);
            }
        }
    }
}

} // verus!
