//! Identity access for stored entities, identifier sources, and the
//! in-memory repository: a store of entities keyed by their identifiers that
//! answers look-ups, queries, saves and deletions.

use vstd::prelude::*;
use vstd::std_specs::cmp::PartialEqSpec;
use crate::paging::{
    arranged, comparable, copies_of, entity_at, filterable, lemma_arranged_insert,
    lemma_selection_done, lemma_selection_step, page, page_bounds, pick, placed_before, query_answer, selection,
    selection_upto, slot, span, lemma_comparable_at,
};
use crate::query::{all_pass, refused, Comparator, Order, QuerySpec};

verus! {

/// Gives the repository access to an entity's identity field.
///
/// `id_of` is the identifier an entity carries; `get_id` reads it and
/// `set_id` replaces it, turning the entity into `with_id` of the new one. An entity counts as new (needing an identifier)
/// when `is_new` says so; by default, when its identifier equals
/// `Id::default()`. Code built without Verus implements `id_of` with the
/// body of `get_id`, and `with_id` as the entity with its identifier field
/// replaced.
pub trait HasId<Id: Clone + Default + PartialEq>: Sized {
    spec fn id_of(&self) -> Id;

    fn get_id(&self) -> (r: Id)
        ensures
            r == self.id_of(),
    ;

    /// The entity with its identifier replaced by `id` and all else kept.
    spec fn with_id(self, id: Id) -> Self;

    fn set_id(&mut self, id: Id)
        ensures
            *final(self) == old(self).with_id(id),
            final(self).id_of() == id,
    ;

    /// Returns `true` when the entity has not yet been assigned an ID. By
    /// default: its identifier compares equal (by `Id`'s `==`) to a value
    /// that `Id::default()` gives.
    fn is_new(&self) -> (r: bool)
        default_ensures
            exists|d: Id|
                call_ensures(Id::default, (), d) && call_ensures(
                    <Id as PartialEq>::eq,
                    (&self.id_of(), &d),
                    r,
                ),
    {
        self.get_id() == Id::default()
    }
}

/// A source of fresh identifiers.
///
/// `ready` says that `next_id` may be called; `produces(after, id)` says that
/// one call can hand out `id` and leave the source in state `after`.
pub trait IdSource<Id> {
    spec fn ready(&self) -> bool;

    spec fn produces(&self, after: &Self, id: Id) -> bool;

    fn next_id(&mut self) -> (id: Id)
        requires
            old(self).ready(),
        ensures
            old(self).produces(final(self), id),
    ;
}

/// Every closure `Fn() -> Id` is a source of identifiers: it is asked once
/// per identifier and is not changed by being asked.
impl<Id, F: Fn() -> Id> IdSource<Id> for F {
    open spec fn ready(&self) -> bool {
        call_requires(*self, ())
    }

    open spec fn produces(&self, after: &Self, id: Id) -> bool {
        call_ensures(*self, (), id) && *after == *self
    }

    fn next_id(&mut self) -> (id: Id) {
        (self)()
    }
}

/// Hands out `1, 2, 3, ...` in turn; after `u64::MAX` it wraps around to `0`.
pub struct SequentialIds {
    next: u64,
}

impl SequentialIds {
    /// The identifier the next call hands out.
    pub closed spec fn upcoming(&self) -> u64 {
        self.next
    }

    /// A source whose first identifier is `1`.
    pub fn new() -> (r: Self)
        ensures
            r.upcoming() == 1,
    {
        SequentialIds { next: 1 }
    }
}

/// The identifier after `n`, wrapping around at `u64::MAX`.
pub open spec fn successor(n: u64) -> u64 {
    if n == u64::MAX {
        0
    } else {
        (n + 1) as u64
    }
}

impl IdSource<u64> for SequentialIds {
    open spec fn ready(&self) -> bool {
        true
    }

    open spec fn produces(&self, after: &Self, id: u64) -> bool {
        id == self.upcoming() && after.upcoming() == successor(self.upcoming())
    }

    fn next_id(&mut self) -> (id: u64) {
        let id = self.next;
        self.next = if id == u64::MAX {
            0
        } else {
            id + 1
        };
        id
    }
}

/// `==` on `Id` is an equivalence that coincides with identity, as `Eq`
/// promises for the key types of a map (it holds of the integer types).
pub open spec fn lawful_eq<Id: PartialEq>() -> bool {
    &&& Id::obeys_eq_spec()
    &&& forall|a: Id, b: Id| #[trigger] a.eq_spec(&b) <==> a == b
}

/// `lawful_eq` holds of `u64`.
pub proof fn lemma_u64_lawful_eq()
    ensures
        lawful_eq::<u64>(),
{
}

/// The keys of `entries` are pairwise distinct.
pub open spec fn distinct_keys<Id, T>(entries: Seq<(Id, T)>) -> bool {
    forall|i: int, j: int|
        0 <= i < entries.len() && 0 <= j < entries.len() && i != j ==> #[trigger] entries[i].0
            != #[trigger] entries[j].0
}

/// The map that a sequence of entries with distinct keys stands for.
pub open spec fn entries_map<Id, T>(entries: Seq<(Id, T)>) -> Map<Id, T> {
    Map::new(
        |k: Id| exists|i: int| 0 <= i < entries.len() && entries[i].0 == k,
        |k: Id| entries[choose|i: int| 0 <= i < entries.len() && entries[i].0 == k].1,
    )
}

/// An entry of a sequence with distinct keys is what the map holds at its key.
pub proof fn lemma_entries_map_at<Id, T>(entries: Seq<(Id, T)>, i: int)
    requires
        distinct_keys(entries),
        0 <= i < entries.len(),
    ensures
        entries_map(entries).contains_key(entries[i].0),
        entries_map(entries)[entries[i].0] == entries[i].1,
{
    let k = entries[i].0;
    assert(entries_map(entries).dom().contains(k));
    let j = choose|j: int| 0 <= j < entries.len() && entries[j].0 == k;
    assert(j == i);
}

/// Entries keyed by identifier; no two entries share a key.
///
/// A vector rather than a `HashMap`: vstd specifies `HashMap` only for key
/// types known to obey its hashing key model (the primitive integers and a
/// few more, by axiom), and a generic identifier type such as `Id<T>` cannot
/// be shown to without an assumption.
struct EntryTable<Id: PartialEq, T> {
    entries: Vec<(Id, T)>,
}

impl<Id: PartialEq, T> EntryTable<Id, T> {
    #[verifier::type_invariant]
    closed spec fn well_formed(self) -> bool {
        &&& lawful_eq::<Id>()
        &&& distinct_keys(self.entries@)
    }

    closed spec fn entries(&self) -> Seq<(Id, T)> {
        self.entries@
    }

    fn empty() -> (r: Self)
        requires
            lawful_eq::<Id>(),
        ensures
            r.entries() == Seq::<(Id, T)>::empty(),
    {
        EntryTable { entries: Vec::new() }
    }

    fn len(&self) -> (r: usize)
        ensures
            r == self.entries().len(),
    {
        self.entries.len()
    }

    fn value_at(&self, i: usize) -> (r: &T)
        requires
            i < self.entries().len(),
        ensures
            *r == self.entries()[i as int].1,
    {
        &self.entries[i].1
    }

    /// The position of the entry stored under `id`, if any.
    fn position(&self, id: &Id) -> (r: Option<usize>)
        ensures
            r matches Some(i) ==> i < self.entries().len() && self.entries()[i as int].0 == *id,
            r is None ==> forall|i: int|
                0 <= i < self.entries().len() ==> #[trigger] self.entries()[i].0 != *id,
    {
        proof {
            use_type_invariant(self);
        }
        let n = self.entries.len();
        let mut i: usize = 0;
        while i < n
            invariant
                n == self.entries@.len(),
                i <= n,
                lawful_eq::<Id>(),
                forall|j: int| 0 <= j < i ==> #[trigger] self.entries@[j].0 != *id,
            decreases n - i,
        {
            if self.entries[i].0 == *id {
                return Some(i);
            }
            i = i + 1;
        }
        None
    }

    fn remove_at(&mut self, i: usize)
        requires
            i < old(self).entries().len(),
        ensures
            final(self).entries() == old(self).entries().remove(i as int),
    {
        proof {
            use_type_invariant(&*self);
            lemma_remove_entry(self.entries@, i as int);
        }
        let mut entries: Vec<(Id, T)> = Vec::new();
        std::mem::swap(&mut entries, &mut self.entries);
        let _ = entries.remove(i);
        self.entries = entries;
    }

    /// Stores `value` under `key`, replacing the value stored there before.
    fn put(&mut self, key: Id, value: T)
        ensures
            entries_map(final(self).entries()) == entries_map(old(self).entries()).insert(key, value),
    {
        proof {
            use_type_invariant(&*self);
        }
        let ghost before = self.entries@;
        let found = self.position(&key);
        if found.is_none() {
            assert forall|i: int| 0 <= i < before.len() implies #[trigger] before[i].0 != key by {
                assert(self.entries()[i].0 != key);
            }
        }
        let mut entries: Vec<(Id, T)> = Vec::new();
        std::mem::swap(&mut entries, &mut self.entries);
        match found {
            Some(i) => {
                entries.set(i, (key, value));
                proof {
                    lemma_replace_entry(before, i as int, value);
                }
            },
            None => {
                entries.push((key, value));
                proof {
                    lemma_push_entry(before, key, value);
                }
            },
        }
        self.entries = entries;
    }
}

/// A ready-to-use in-memory repository.
///
/// Entities are kept under the identifier they carried when they were saved.
/// Identifiers for new entities come from the source `G`; `new` uses
/// [`SequentialIds`] for `u64` identifiers, `with_id_gen` any closure.
pub struct InMemoryRepository<T, Id: PartialEq, G = SequentialIds> {
    table: EntryTable<Id, T>,
    ids: G,
}

impl<T, Id: PartialEq, G> View for InMemoryRepository<T, Id, G> {
    type V = Map<Id, T>;

    /// The stored entities, by identifier.
    closed spec fn view(&self) -> Map<Id, T> {
        entries_map(self.table.entries())
    }
}

impl<T, Id: PartialEq, G> InMemoryRepository<T, Id, G> {
    /// The stored entities in the order the store keeps them.
    pub closed spec fn stored(&self) -> Seq<T> {
        self.table.entries().map_values(|e: (Id, T)| e.1)
    }

    /// The identifiers of the stored entities, in the order of [`Self::stored`].
    pub closed spec fn stored_keys(&self) -> Seq<Id> {
        self.table.entries().map_values(|e: (Id, T)| e.0)
    }

    /// The identifier source.
    pub closed spec fn id_source(&self) -> G {
        self.ids
    }

    /// The store holds at most `usize::MAX` entities.
    pub proof fn lemma_stored_fits(&self)
        ensures
            self.stored().len() <= usize::MAX,
    {
        assert(self.table.entries.len() == self.table.entries@.len());
    }
}

/// `stored` lists every entity of `view` exactly once: its `i`-th entity is
/// the one held under the `i`-th of `keys`, which are pairwise distinct and
/// are exactly the identifiers of `view`.
pub open spec fn lists<Id, T>(keys: Seq<Id>, stored: Seq<T>, view: Map<Id, T>) -> bool {
    &&& keys.len() == stored.len()
    &&& keys.no_duplicates()
    &&& forall|k: Id| #[trigger] view.contains_key(k) <==> keys.contains(k)
    &&& forall|i: int| 0 <= i < stored.len() ==> view[#[trigger] keys[i]] == stored[i]
}

/// The keys and values of entries with distinct keys list the map they
/// stand for.
pub proof fn lemma_entries_list_map<Id, T>(entries: Seq<(Id, T)>)
    requires
        distinct_keys(entries),
    ensures
        lists(
            entries.map_values(|e: (Id, T)| e.0),
            entries.map_values(|e: (Id, T)| e.1),
            entries_map(entries),
        ),
{
    let keys = entries.map_values(|e: (Id, T)| e.0);
    let values = entries.map_values(|e: (Id, T)| e.1);
    let m = entries_map(entries);
    assert forall|a: int, b: int| 0 <= a < keys.len() && 0 <= b < keys.len() && a != b implies keys[a]
        != keys[b] by {
        assert(keys[a] == entries[a].0);
        assert(keys[b] == entries[b].0);
    }
    assert forall|k: Id| #[trigger] m.contains_key(k) <==> keys.contains(k) by {
        if m.contains_key(k) {
            let i = choose|i: int| 0 <= i < entries.len() && entries[i].0 == k;
            assert(keys[i] == k);
        }
        if keys.contains(k) {
            let i = choose|i: int| 0 <= i < keys.len() && keys[i] == k;
            lemma_entries_map_at(entries, i);
        }
    }
    assert forall|i: int| 0 <= i < values.len() implies m[#[trigger] keys[i]] == values[i] by {
        lemma_entries_map_at(entries, i);
    }
}

impl<T: HasId<u64> + Clone> InMemoryRepository<T, u64, SequentialIds> {
    /// An empty repository that numbers new entities `1, 2, 3, ...`.
    pub fn new() -> (r: Self)
        ensures
            r@ == Map::<u64, T>::empty(),
            r.id_source().upcoming() == 1,
    {
        proof {
            lemma_u64_lawful_eq();
        }
        let r = InMemoryRepository { table: EntryTable::empty(), ids: SequentialIds::new() };
        assert(r@ =~= Map::<u64, T>::empty());
        r
    }
}

impl<T: HasId<u64> + Clone> Default for InMemoryRepository<T, u64, SequentialIds> {
    /// An empty repository that numbers new entities `1, 2, 3, ...`.
    fn default() -> (r: Self)
        ensures
            r@ == Map::<u64, T>::empty(),
            r.id_source().upcoming() == 1,
    {
        Self::new()
    }
}

impl<T: HasId<Id> + Clone, Id: Clone + Default + PartialEq, G: IdSource<Id>> InMemoryRepository<
    T,
    Id,
    G,
> {
    /// An empty repository that takes identifiers for new entities from
    /// `next_id`.
    pub fn with_id_gen(next_id: G) -> (r: Self)
        requires
            lawful_eq::<Id>(),
        ensures
            r@ == Map::<Id, T>::empty(),
            r.id_source() == next_id,
    {
        let r = InMemoryRepository { table: EntryTable::empty(), ids: next_id };
        assert(r@ =~= Map::<Id, T>::empty());
        r
    }

    /// A copy of the entity stored under `id`, if there is one.
    pub fn find_by_id(&self, id: &Id) -> (r: Option<T>)
        ensures
            self@.contains_key(*id) ==> (r matches Some(e) && cloned(self@[*id], e)),
            !self@.contains_key(*id) ==> r is None,
    {
        proof {
            use_type_invariant(&self.table);
        }
        match self.table.position(id) {
            Some(i) => {
                proof {
                    lemma_entries_map_at(self.table.entries(), i as int);
                }
                Some(self.table.value_at(i).clone())
            },
            None => None,
        }
    }

    /// Removes the entity stored under `id`; answers whether there was one.
    pub fn delete(&mut self, id: &Id) -> (r: bool)
        ensures
            r == old(self)@.contains_key(*id),
            final(self)@ == old(self)@.remove(*id),
            final(self).id_source() == old(self).id_source(),
    {
        proof {
            use_type_invariant(&self.table);
        }
        let ghost before = self.table.entries();
        match self.table.position(id) {
            Some(i) => {
                proof {
                    lemma_entries_map_at(before, i as int);
                    lemma_remove_entry(before, i as int);
                }
                self.table.remove_at(i);
                true
            },
            None => {
                assert(entries_map(before) =~= entries_map(before).remove(*id));
                false
            },
        }
    }

    /// The entities that `query` picks, arranged and paged: every stored
    /// entity that passes all filters, sorted by the query's comparison when
    /// it has one, then `offset` of them skipped and at most `limit` kept.
    /// The answer holds copies of the stored entities.
    pub fn find(&self, query: QuerySpec<T>) -> (r: Vec<T>)
        requires
            filterable(self.stored(), query.filters@),
            query.order_by matches Some(by) ==> comparable(self.stored(), by),
        ensures
            query_answer(self.stored(), query, r@),
            lists(self.stored_keys(), self.stored(), self@),
    {
        proof {
            use_type_invariant(&self.table);
            lemma_entries_list_map(self.table.entries());
        }
        let ghost stored = self.stored();
        let n = self.table.len();
        let mut picked: Vec<usize> = Vec::new();
        let mut i: usize = 0;
        while i < n
            invariant
                n == stored.len(),
                stored == self.stored(),
                i <= n,
                filterable(stored, query.filters@),
                selection_upto(stored, query.filters@, picked@, i),
            decreases n - i,
        {
            let e = self.table.value_at(i);
            assert(*e == slot(stored, i));
            let taken = query.matches(e);
            proof {
                lemma_selection_step(stored, query.filters@, picked@, i, taken);
            }
            if taken {
                picked.push(i);
            }
            i = i + 1;
        }
        proof {
            lemma_selection_done(stored, query.filters@, picked@);
        }
        let ghost chosen = picked@;
        let order = match &query.order_by {
            None => picked,
            Some(p) => self.arrange(&picked, p),
        };
        let (start, end) = page_bounds(order.len(), query.offset, query.limit);
        let ghost window = span(order@, start, end);
        let mut r: Vec<T> = Vec::new();
        let mut k = start;
        while k < end
            invariant
                start <= k <= end <= order@.len(),
                stored == self.stored(),
                window == span(order@, start, end),
                forall|m: int| 0 <= m < order@.len() ==> #[trigger] order@[m] < stored.len(),
                copies_of(pick(stored, window).take(k - start), r@),
            decreases end - k,
        {
            let item = self.table.value_at(order[k]).clone();
            proof {
                assert(cloned(entity_at(stored, slot(order@, k)), item));
            }
            r.push(item);
            k = k + 1;
            proof {
                assert(pick(stored, window).take(k - start) =~= pick(stored, window).take(
                    k - start - 1,
                ).push(pick(stored, window)[k - start - 1]));
            }
        }
        proof {
            assert(pick(stored, window).take(end - start) =~= pick(stored, window));
            assert(page(order@, query.offset, query.limit) == window);
            assert(selection(stored, query.filters@, chosen));
            assert(order@.to_multiset() == chosen.to_multiset());
            assert(query.order_by matches Some(by) ==> arranged(stored, order@, by));
            assert(copies_of(pick(stored, page(order@, query.offset, query.limit)), r@));
            assert(query_answer(stored, query, r@));
        }
        r
    }

    /// The positions `picked`, sorted by `by` (insertion sort: each position
    /// goes after the last one that the comparison does not rank above it).
    fn arrange(&self, picked: &Vec<usize>, by: &Comparator<T>) -> (order: Vec<usize>)
        requires
            forall|m: int| 0 <= m < picked@.len() ==> #[trigger] picked@[m] < self.stored().len(),
            comparable(self.stored(), *by),
        ensures
            order@.to_multiset() == picked@.to_multiset(),
            arranged(self.stored(), order@, *by),
            forall|m: int| 0 <= m < order@.len() ==> #[trigger] order@[m] < self.stored().len(),
    {
        broadcast use vstd::seq_lib::group_to_multiset_ensures;
        let ghost stored = self.stored();
        let mut order: Vec<usize> = Vec::new();
        let mut k: usize = 0;
        proof {
            assert(picked@.take(0) =~= Seq::<usize>::empty());
            assert(order@ =~= Seq::<usize>::empty());
        }
        while k < picked.len()
            invariant
                k <= picked@.len(),
                stored == self.stored(),
                forall|m: int| 0 <= m < picked@.len() ==> #[trigger] picked@[m] < stored.len(),
                comparable(stored, *by),
                order@.to_multiset() == picked@.take(k as int).to_multiset(),
                arranged(stored, order@, *by),
                forall|m: int| 0 <= m < order@.len() ==> #[trigger] order@[m] < stored.len(),
            decreases picked@.len() - k,
        {
            let x = picked[k];
            let mut j = order.len();
            loop
                invariant_except_break
                    j <= order@.len(),
                    j < order@.len() ==> by.gives(
                        &entity_at(stored, order@[j as int]),
                        &entity_at(stored, x),
                        Order::Greater,
                    ),
                invariant
                    x < stored.len(),
                    stored == self.stored(),
                    forall|m: int| 0 <= m < order@.len() ==> #[trigger] order@[m] < stored.len(),
                    comparable(stored, *by),
                ensures
                    j <= order@.len(),
                    j > 0 ==> placed_before(
                        *by,
                        &entity_at(stored, order@[j - 1]),
                        &entity_at(stored, x),
                    ),
                    j < order@.len() ==> by.gives(
                        &entity_at(stored, order@[j as int]),
                        &entity_at(stored, x),
                        Order::Greater,
                    ),
                decreases j,
            {
                if j == 0 {
                    break;
                }
                let a = self.table.value_at(order[j - 1]);
                let b = self.table.value_at(x);
                proof {
                    let ia = order@[j - 1] as int;
                    let ib = x as int;
                    assert(*a == stored[ia]);
                    assert(*b == stored[ib]);
                    lemma_comparable_at(stored, *by, ia, ib);
                    assert(by.callable(&stored[ia], &stored[ib]));
                }
                let o = by.compare(a, b);
                if o != Order::Greater {
                    break;
                }
                j = j - 1;
            }
            let ghost before = order@;
            proof {
                lemma_arranged_insert(stored, order@, j as int, x, *by);
            }
            order.insert(j, x);
            proof {
                assert(picked@.take(k + 1) =~= picked@.take(k as int).push(x));
                vstd::seq_lib::to_multiset_insert(before, j as int, x);
                vstd::seq_lib::to_multiset_build(picked@.take(k as int), x);
            }
            k = k + 1;
        }
        proof {
            assert(picked@.take(picked@.len() as int) =~= picked@);
        }
        order
    }

    /// Stores `entity`, first giving it a fresh identifier from the source
    /// when it is new, and answers the entity as stored (the store keeps a
    /// copy of it under its identifier).
    pub fn save(&mut self, entity: T) -> (r: T)
        requires
            old(self).id_source().ready(),
        ensures
            exists|fresh: bool|
                {
                    &&& call_ensures(T::is_new, (&entity,), fresh)
                    &&& fresh ==> old(self).id_source().produces(
                        &final(self).id_source(),
                        r.id_of(),
                    ) && r == entity.with_id(r.id_of())
                    &&& !fresh ==> r == entity && final(self).id_source() == old(
                        self,
                    ).id_source()
                },
            exists|kept: T|
                cloned(r, kept) && final(self)@ == old(self)@.insert(r.id_of(), kept),
    {
        let mut entity = entity;
        let fresh = entity.is_new();
        if fresh {
            let id = self.ids.next_id();
            entity.set_id(id);
        }
        let key = entity.get_id();
        let kept = entity.clone();
        assert(cloned(entity, kept));
        let ghost old_map = self@;
        self.table.put(key, kept);
        assert(self@ == old_map.insert(entity.id_of(), kept));
        entity
    }
}

/// Replacing the value of the entry at `i` updates the map at its key.
pub proof fn lemma_replace_entry<Id, T>(entries: Seq<(Id, T)>, i: int, value: T)
    requires
        distinct_keys(entries),
        0 <= i < entries.len(),
    ensures
        distinct_keys(entries.update(i, (entries[i].0, value))),
        entries_map(entries.update(i, (entries[i].0, value))) == entries_map(entries).insert(
            entries[i].0,
            value,
        ),
{
    let k = entries[i].0;
    let next = entries.update(i, (k, value));
    assert forall|a: int, b: int|
        0 <= a < next.len() && 0 <= b < next.len() && a != b implies #[trigger] next[a].0
        != #[trigger] next[b].0 by {
        assert(next[a].0 == entries[a].0);
        assert(next[b].0 == entries[b].0);
    }
    assert forall|key: Id|
        #[trigger] entries_map(next).contains_key(key) <==> entries_map(entries).insert(
            k,
            value,
        ).contains_key(key) by {
        if entries_map(next).contains_key(key) {
            let j = choose|j: int| 0 <= j < next.len() && next[j].0 == key;
            assert(next[j].0 == entries[j].0);
        }
        if entries_map(entries).contains_key(key) {
            let j = choose|j: int| 0 <= j < entries.len() && entries[j].0 == key;
            assert(next[j].0 == entries[j].0);
        }
        if key == k {
            assert(next[i].0 == k);
        }
    }
    assert forall|key: Id| #[trigger] entries_map(next).contains_key(key) implies entries_map(
        next,
    )[key] == entries_map(entries).insert(k, value)[key] by {
        let j = choose|j: int| 0 <= j < next.len() && next[j].0 == key;
        lemma_entries_map_at(next, j);
        if j != i {
            assert(next[j] == entries[j]);
            lemma_entries_map_at(entries, j);
        }
    }
    assert(entries_map(next) =~= entries_map(entries).insert(k, value));
}

/// Appending an entry under a key not yet present adds it to the map.
pub proof fn lemma_push_entry<Id, T>(entries: Seq<(Id, T)>, key: Id, value: T)
    requires
        distinct_keys(entries),
        forall|i: int| 0 <= i < entries.len() ==> #[trigger] entries[i].0 != key,
    ensures
        distinct_keys(entries.push((key, value))),
        entries_map(entries.push((key, value))) == entries_map(entries).insert(key, value),
{
    let next = entries.push((key, value));
    assert forall|a: int, b: int|
        0 <= a < next.len() && 0 <= b < next.len() && a != b implies #[trigger] next[a].0
        != #[trigger] next[b].0 by {
        if a < entries.len() {
            assert(next[a] == entries[a]);
        }
        if b < entries.len() {
            assert(next[b] == entries[b]);
        }
    }
    assert forall|k: Id|
        #[trigger] entries_map(next).contains_key(k) <==> entries_map(entries).insert(
            key,
            value,
        ).contains_key(k) by {
        if entries_map(next).contains_key(k) {
            let j = choose|j: int| 0 <= j < next.len() && next[j].0 == k;
            if j < entries.len() {
                assert(next[j] == entries[j]);
            }
        }
        if entries_map(entries).contains_key(k) {
            let j = choose|j: int| 0 <= j < entries.len() && entries[j].0 == k;
            assert(next[j] == entries[j]);
        }
        if k == key {
            assert(next[entries.len() as int].0 == key);
        }
    }
    assert forall|k: Id| #[trigger] entries_map(next).contains_key(k) implies entries_map(next)[k]
        == entries_map(entries).insert(key, value)[k] by {
        let j = choose|j: int| 0 <= j < next.len() && next[j].0 == k;
        lemma_entries_map_at(next, j);
        if j < entries.len() {
            assert(next[j] == entries[j]);
            lemma_entries_map_at(entries, j);
        }
    }
    assert(entries_map(next) =~= entries_map(entries).insert(key, value));
}

/// Removing the entry at `i` removes its key from the map and keeps the keys
/// distinct.
pub proof fn lemma_remove_entry<Id, T>(entries: Seq<(Id, T)>, i: int)
    requires
        distinct_keys(entries),
        0 <= i < entries.len(),
    ensures
        distinct_keys(entries.remove(i)),
        entries_map(entries.remove(i)) == entries_map(entries).remove(entries[i].0),
{
    let rest = entries.remove(i);
    let k = entries[i].0;
    assert forall|a: int, b: int|
        0 <= a < rest.len() && 0 <= b < rest.len() && a != b implies #[trigger] rest[a].0
        != #[trigger] rest[b].0 by {
        let a0 = if a < i { a } else { a + 1 };
        let b0 = if b < i { b } else { b + 1 };
        assert(rest[a] == entries[a0]);
        assert(rest[b] == entries[b0]);
    }
    assert forall|key: Id|
        #[trigger] entries_map(rest).contains_key(key) <==> entries_map(entries).remove(
            k,
        ).contains_key(key) by {
        if entries_map(rest).contains_key(key) {
            let j = choose|j: int| 0 <= j < rest.len() && rest[j].0 == key;
            let j0 = if j < i { j } else { j + 1 };
            assert(rest[j] == entries[j0]);
            assert(entries_map(entries).contains_key(key));
        }
        if entries_map(entries).remove(k).contains_key(key) {
            let j = choose|j: int| 0 <= j < entries.len() && entries[j].0 == key;
            let j1 = if j < i { j } else { j - 1 };
            assert(rest[j1] == entries[j]);
            assert(entries_map(rest).contains_key(key));
        }
    }
    assert forall|key: Id| #[trigger] entries_map(rest).contains_key(key) implies entries_map(
        rest,
    )[key] == entries_map(entries)[key] by {
        let j = choose|j: int| 0 <= j < rest.len() && rest[j].0 == key;
        let j0 = if j < i { j } else { j + 1 };
        assert(rest[j] == entries[j0]);
        lemma_entries_map_at(rest, j);
        lemma_entries_map_at(entries, j0);
    }
    assert(entries_map(rest) =~= entries_map(entries).remove(k));
}

/// What a save stores can be read back: once `save` has answered `r`, a
/// look-up of `r`'s identifier finds a copy of the copy that was stored, and
/// every other identifier still holds what it held before.
pub proof fn law_read_after_save<T: HasId<Id> + Clone, Id: Clone + Default + PartialEq>(
    before: Map<Id, T>,
    after: Map<Id, T>,
    r: T,
    found: Option<T>,
)
    requires
        exists|kept: T| cloned(r, kept) && after == before.insert(r.id_of(), kept),
        after.contains_key(r.id_of()) ==> (found matches Some(e) && cloned(after[r.id_of()], e)),
        !after.contains_key(r.id_of()) ==> found is None,
    ensures
        found matches Some(e) && exists|kept: T| cloned(r, kept) && cloned(kept, e),
        forall|k: Id|
            k != r.id_of() ==> (#[trigger] after.contains_key(k) == before.contains_key(k) && (
            before.contains_key(k) ==> after[k] == before[k])),
{
    let kept = choose|kept: T| cloned(r, kept) && after == before.insert(r.id_of(), kept);
    assert(after[r.id_of()] == kept);
}

/// A deleted identifier is gone: after `delete(id)`, a look-up of `id` finds
/// nothing, a second `delete(id)` answers `false` and changes nothing, and
/// every other identifier still holds what it held before.
pub proof fn law_delete_is_final<T, Id>(
    before: Map<Id, T>,
    after: Map<Id, T>,
    id: Id,
    found: Option<T>,
    again: Map<Id, T>,
    answered_again: bool,
)
    requires
        after == before.remove(id),
        after.contains_key(id) ==> found is Some,
        !after.contains_key(id) ==> found is None,
        answered_again == after.contains_key(id),
        again == after.remove(id),
    ensures
        found is None,
        !answered_again,
        again == after,
        forall|k: Id|
            k != id ==> (#[trigger] after.contains_key(k) == before.contains_key(k) && (
            before.contains_key(k) ==> after[k] == before[k])),
{
    assert(again =~= after);
}

/// Identifiers handed out one after another by [`SequentialIds`] are all
/// different, for as long as fewer than 2^64 of them have been handed out:
/// the `i`-th one is the first plus `i`, wrapping around at 2^64.
pub proof fn law_sequential_ids_distinct(states: Seq<SequentialIds>, ids: Seq<u64>)
    requires
        states.len() == ids.len() + 1,
        ids.len() <= 0x1_0000_0000_0000_0000,
        forall|i: int| 0 <= i < ids.len() ==> #[trigger] states[i].produces(&states[i + 1], ids[i]),
    ensures
        forall|i: int|
            0 <= i < ids.len() ==> #[trigger] ids[i] == (states[0].upcoming() + i) % 0x1_0000_0000_0000_0000,
        forall|i: int, j: int| 0 <= i < j < ids.len() ==> #[trigger] ids[i] != #[trigger] ids[j],
{
    lemma_sequential_ids_count(states, ids, ids.len() as int);
    assert forall|i: int, j: int| 0 <= i < j < ids.len() implies #[trigger] ids[i] != #[trigger] ids[j] by {
        let u = states[0].upcoming() as int;
        let m: int = 0x1_0000_0000_0000_0000;
        assert(ids[i] == (u + i) % m);
        assert(ids[j] == (u + j) % m);
        assert((u + i) % m != (u + j) % m) by (nonlinear_arith)
            requires
                0 <= u < m,
                0 <= i < j < m,
        {
            vstd::arithmetic::div_mod::lemma_fundamental_div_mod(u + i, m);
            vstd::arithmetic::div_mod::lemma_fundamental_div_mod(u + j, m);
        }
    }
}

/// The first `n` identifiers handed out count up from the first one,
/// wrapping around at 2^64.
proof fn lemma_sequential_ids_count(states: Seq<SequentialIds>, ids: Seq<u64>, n: int)
    requires
        states.len() == ids.len() + 1,
        0 <= n <= ids.len(),
        forall|i: int| 0 <= i < ids.len() ==> #[trigger] states[i].produces(&states[i + 1], ids[i]),
    ensures
        forall|i: int|
            0 <= i < n ==> #[trigger] ids[i] == (states[0].upcoming() + i) % 0x1_0000_0000_0000_0000,
        states[n].upcoming() == (states[0].upcoming() + n) % 0x1_0000_0000_0000_0000,
    decreases n,
{
    if n > 0 {
        lemma_sequential_ids_count(states, ids, n - 1);
        let i = n - 1;
        assert(states[i].produces(&states[i + 1], ids[i]));
        let u = states[0].upcoming() as int;
        let m: int = 0x1_0000_0000_0000_0000;
        let prev = states[n - 1].upcoming() as int;
        assert(prev == (u + n - 1) % m);
        assert(states[n].upcoming() == (u + n) % m) by {
            vstd::arithmetic::div_mod::lemma_add_mod_noop(u + n - 1, 1, m);
            vstd::arithmetic::div_mod::lemma_small_mod(1, m as nat);
            if prev == m - 1 {
                vstd::arithmetic::div_mod::lemma_mod_self_0(m);
            } else {
                vstd::arithmetic::div_mod::lemma_small_mod((prev + 1) as nat, m as nat);
            }
        }
    }
}

/// The page of a list is a run of consecutive items of the list.
proof fn lemma_page_is_run<A>(items: Seq<A>, offset: usize, limit: Option<usize>) -> (start: int)
    ensures
        0 <= start,
        start + page(items, offset, limit).len() <= items.len(),
        forall|k: int|
            0 <= k < page(items, offset, limit).len() ==> #[trigger] page(items, offset, limit)[k]
                == items[start + k],
{
    if offset <= items.len() {
        offset as int
    } else {
        items.len() as int
    }
}

/// The selection and arrangement behind a query's answer.
proof fn lemma_answer_parts<T: Clone>(stored: Seq<T>, query: QuerySpec<T>, answer: Seq<T>) -> (parts: (
    Seq<usize>,
    Seq<usize>,
))
    requires
        query_answer(stored, query, answer),
    ensures
        selection(stored, query.filters@, parts.0),
        parts.1.to_multiset() == parts.0.to_multiset(),
        copies_of(pick(stored, page(parts.1, query.offset, query.limit)), answer),
{
    choose|picked: Seq<usize>, order: Seq<usize>|
        {
            &&& selection(stored, query.filters@, picked)
            &&& order.to_multiset() == picked.to_multiset()
            &&& query.order_by matches Some(by) ==> arranged(stored, order, by)
            &&& copies_of(pick(stored, page(order, query.offset, query.limit)), answer)
        }
}

/// A query answers from the entities the store holds. When `stored` lists
/// the store `view` (as `find` ensures), every entity of the answer is a copy
/// of an entity held under its own identifier of the store, no identifier
/// twice, and that entity passed every filter. A query that neither skips
/// nor limits answers, besides, every entity of the store that no filter
/// refused.
pub proof fn law_answer_from_view<Id, T: Clone>(
    view: Map<Id, T>,
    keys: Seq<Id>,
    stored: Seq<T>,
    query: QuerySpec<T>,
    answer: Seq<T>,
)
    requires
        stored.len() <= usize::MAX,
        lists(keys, stored, view),
        query_answer(stored, query, answer),
    ensures
        exists|ids: Seq<Id>|
            {
                &&& ids.len() == answer.len()
                &&& ids.no_duplicates()
                &&& forall|k: int|
                    0 <= k < answer.len() ==> {
                        &&& view.contains_key(#[trigger] ids[k])
                        &&& all_pass(query.filters@, &view[ids[k]])
                        &&& cloned(view[ids[k]], answer[k])
                    }
                &&& query.offset == 0 && query.limit is None ==> forall|id: Id|
                    #[trigger] view.contains_key(id) && !refused(query.filters@, &view[id])
                        ==> ids.contains(id)
            },
{
    broadcast use vstd::seq_lib::group_to_multiset_ensures;

    let (picked, order) = lemma_answer_parts(stored, query, answer);
    assert(picked.no_duplicates()) by {
        assert forall|a: int, b: int| 0 <= a < picked.len() && 0 <= b < picked.len() && a != b
            implies picked[a] != picked[b] by {
            if a < b {
                assert(picked[a] < picked[b]);
            } else {
                assert(picked[b] < picked[a]);
            }
        }
    }
    picked.lemma_multiset_has_no_duplicates();
    order.lemma_multiset_has_no_duplicates_conv();
    // Every position in `order` is a picked one.
    assert forall|m: int| 0 <= m < order.len() implies #[trigger] picked.contains(order[m]) by {
        assert(order.to_multiset().contains(order[m]));
    }
    let window = page(order, query.offset, query.limit);
    let start = lemma_page_is_run(order, query.offset, query.limit);
    let ids = window.map_values(|p: usize| keys[p as int]);
    assert forall|k: int| 0 <= k < window.len() implies #[trigger] window[k] < stored.len()
        && picked.contains(window[k]) by {
        assert(window[k] == order[start + k]);
        assert(picked.contains(order[start + k]));
        let m = choose|m: int| 0 <= m < picked.len() && picked[m] == order[start + k];
        assert(picked[m] < stored.len());
    }
    assert(ids.no_duplicates()) by {
        assert forall|a: int, b: int| 0 <= a < ids.len() && 0 <= b < ids.len() && a != b implies ids[a]
            != ids[b] by {
            assert(window[a] == order[start + a]);
            assert(window[b] == order[start + b]);
            assert(window[a] != window[b]);
            assert(window[a] < stored.len() && window[b] < stored.len());
        }
    }
    assert forall|k: int| 0 <= k < answer.len() implies {
        &&& view.contains_key(#[trigger] ids[k])
        &&& all_pass(query.filters@, &view[ids[k]])
        &&& cloned(view[ids[k]], answer[k])
    } by {
        assert(window[k] < stored.len() && picked.contains(window[k]));
        let p = window[k] as int;
        assert(ids[k] == keys[p]);
        assert(keys.contains(keys[p]));
        assert(view[keys[p]] == stored[p]);
        let m = choose|m: int| 0 <= m < picked.len() && picked[m] == window[k];
        assert(all_pass(query.filters@, &stored[picked[m] as int]));
        assert(pick(stored, window)[k] == stored[p]);
    }
    if query.offset == 0 && query.limit is None {
        assert forall|id: Id| #[trigger] view.contains_key(id) && !refused(query.filters@, &view[id])
            implies ids.contains(id) by {
            assert(keys.contains(id));
            let i = choose|i: int| 0 <= i < keys.len() && keys[i] == id;
            assert(view[keys[i]] == stored[i]);
            let _ = stored[i];
            assert(picked.contains(i as usize));
            assert(order.to_multiset().contains(i as usize));
            let k = choose|k: int| 0 <= k < order.len() && order[k] == i as usize;
            assert(window =~= order);
            assert(window[k] == i as usize);
            assert(ids[k] == keys[i]);
        }
    }
}

} // verus!
