use rust_api::id::Id;
use rust_api::query::QuerySpec;
use rust_api::repository::{HasId, InMemoryRepository, SequentialIds};

#[derive(Debug, Clone, PartialEq)]
struct User {
    id: u64,
    name: String,
    age: u32,
}

impl HasId<u64> for User {
    fn id_of(&self) -> u64 {
        self.id
    }

    fn with_id(self, id: u64) -> Self {
        User { id, ..self }
    }

    fn get_id(&self) -> u64 {
        self.id
    }

    fn set_id(&mut self, id: u64) {
        self.id = id;
    }
}

fn user(name: &str, age: u32) -> User {
    User { id: 0, name: name.to_string(), age }
}

fn names(users: &[User]) -> Vec<&str> {
    users.iter().map(|u| u.name.as_str()).collect()
}

fn seeded() -> InMemoryRepository<User, u64, SequentialIds> {
    let mut repo = InMemoryRepository::new();
    for (name, age) in [("carol", 41), ("alice", 30), ("eve", 17), ("bob", 25), ("dave", 52)] {
        repo.save(user(name, age));
    }
    repo
}

#[test]
fn save_assigns_sequential_ids_to_new_entities() {
    let mut repo: InMemoryRepository<User, u64> = InMemoryRepository::new();
    let a = repo.save(user("alice", 30));
    let b = repo.save(user("bob", 25));
    assert_eq!(a.id, 1);
    assert_eq!(b.id, 2);
    assert_eq!(a.name, "alice");
}

#[test]
fn saved_entity_reads_back_by_id() {
    let mut repo: InMemoryRepository<User, u64> = InMemoryRepository::default();
    let saved = repo.save(user("alice", 30));
    assert_eq!(repo.find_by_id(&saved.id), Some(saved.clone()));
    assert_eq!(repo.find_by_id(&99), None);
}

#[test]
fn saving_an_existing_id_replaces_the_entity() {
    let mut repo: InMemoryRepository<User, u64> = InMemoryRepository::new();
    let mut saved = repo.save(user("alice", 30));
    saved.age = 31;
    let again = repo.save(saved.clone());
    assert_eq!(again.id, saved.id);
    assert_eq!(repo.find_by_id(&saved.id).unwrap().age, 31);
    assert_eq!(repo.find(QuerySpec::new()).len(), 1);
    // An entity that already carries an id keeps it.
    let kept = repo.save(User { id: 40, name: "zed".to_string(), age: 9 });
    assert_eq!(kept.id, 40);
    assert_eq!(repo.find_by_id(&40).unwrap().name, "zed");
}

#[test]
fn delete_answers_whether_the_entity_was_there() {
    let mut repo = seeded();
    assert!(repo.delete(&3));
    assert_eq!(repo.find_by_id(&3), None);
    assert!(!repo.delete(&3));
    assert_eq!(repo.find(QuerySpec::new()).len(), 4);
    assert_eq!(repo.find_by_id(&1).unwrap().name, "carol");
}

#[test]
fn plain_query_returns_every_entity() {
    let repo = seeded();
    let found = repo.find(QuerySpec::new());
    let mut all = names(&found);
    all.sort();
    assert_eq!(all, vec!["alice", "bob", "carol", "dave", "eve"]);
}

#[test]
fn query_filters_orders_and_pages() {
    let repo = seeded();
    let adults = repo.find(
        QuerySpec::new()
            .filter_runtime(|u: &User| u.age >= 18)
            .order_by(|a: &User, b: &User| a.name.cmp(&b.name)),
    );
    assert_eq!(names(&adults), vec!["alice", "bob", "carol", "dave"]);

    let page = repo.find(
        QuerySpec::new()
            .filter_runtime(|u: &User| u.age >= 18)
            .order_by(|a: &User, b: &User| a.name.cmp(&b.name))
            .offset(1)
            .limit(2),
    );
    assert_eq!(names(&page), vec!["bob", "carol"]);

    let oldest_first = repo.find(QuerySpec::new().order_by(|a: &User, b: &User| b.age.cmp(&a.age)));
    assert_eq!(names(&oldest_first), vec!["dave", "carol", "alice", "bob", "eve"]);
}

#[test]
fn filters_combine_by_conjunction() {
    let repo = seeded();
    let found = repo.find(
        QuerySpec::new()
            .filter_runtime(|u: &User| u.age >= 18)
            .filter_runtime(|u: &User| u.name.len() == 5)
            .order_by(|a: &User, b: &User| a.age.cmp(&b.age)),
    );
    assert_eq!(names(&found), vec!["alice", "carol"]);
}

#[test]
fn limit_and_offset_edges() {
    let repo = seeded();
    let by_name = || QuerySpec::new().order_by(|a: &User, b: &User| a.name.cmp(&b.name));
    assert!(repo.find(by_name().limit(0)).is_empty());
    assert!(repo.find(by_name().offset(5)).is_empty());
    assert!(repo.find(by_name().offset(usize::MAX)).is_empty());
    assert_eq!(names(&repo.find(by_name().offset(4).limit(10))), vec!["eve"]);
    assert_eq!(repo.find(by_name().limit(3)).len(), 3);
    assert_eq!(repo.find(by_name().limit(usize::MAX)).len(), 5);
}

#[test]
fn sorting_keeps_equal_entities_in_store_order() {
    let mut repo: InMemoryRepository<User, u64> = InMemoryRepository::new();
    repo.save(user("x", 1));
    repo.save(user("y", 0));
    repo.save(user("z", 1));
    let sorted = repo.find(QuerySpec::new().order_by(|a: &User, b: &User| a.age.cmp(&b.age)));
    assert_eq!(names(&sorted), vec!["y", "x", "z"]);
}

#[test]
fn query_matches_runs_every_filter() {
    let spec = QuerySpec::new()
        .filter_runtime(|n: &i32| *n > 0)
        .filter_runtime(|n: &i32| *n % 2 == 0);
    assert!(spec.matches(&4));
    assert!(!spec.matches(&3));
    assert!(!spec.matches(&-2));
    let none: QuerySpec<i32> = QuerySpec::default();
    assert!(none.matches(&-7));
    assert!(none.filters.is_empty());
    assert!(none.limit.is_none());
    assert_eq!(none.offset, 0);
}

#[derive(Clone)]
struct Account {
    id: Id<Account>,
    owner: String,
}

impl HasId<Id<Account>> for Account {
    fn id_of(&self) -> Id<Account> {
        self.id
    }

    fn with_id(self, id: Id<Account>) -> Self {
        Account { id, ..self }
    }

    fn get_id(&self) -> Id<Account> {
        self.id
    }

    fn set_id(&mut self, id: Id<Account>) {
        self.id = id;
    }
}

#[test]
fn custom_id_source_supplies_ids_for_new_entities() {
    let mut repo = InMemoryRepository::with_id_gen(|| Id::<Account>::new());
    let fresh = Account { id: Id::default(), owner: "ann".to_string() };
    assert!(fresh.is_new());
    let saved = repo.save(fresh);
    assert!(!saved.is_new());
    assert!(saved.id != Id::nil());
    assert_eq!(repo.find_by_id(&saved.id).unwrap().owner, "ann");
    assert!(repo.delete(&saved.id));
    assert!(repo.find_by_id(&saved.id).is_none());
}

#[test]
fn sequential_ids_are_distinct_in_a_run() {
    let mut repo: InMemoryRepository<User, u64> = InMemoryRepository::new();
    let ids: Vec<u64> = (0..50).map(|i| repo.save(user("u", i)).id).collect();
    assert_eq!(ids, (1..=50).collect::<Vec<u64>>());
}

#[derive(Debug, Clone, PartialEq)]
struct E {
    id: u64,
    x: u32,
}

impl HasId<u64> for E {
    fn id_of(&self) -> u64 {
        self.id
    }

    fn with_id(self, id: u64) -> Self {
        E { id, ..self }
    }

    fn get_id(&self) -> u64 {
        self.id
    }

    fn set_id(&mut self, id: u64) {
        self.id = id;
    }
}

#[test]
fn find_filters_then_sorts_then_pages() {
    let mut repo: InMemoryRepository<E, u64> = InMemoryRepository::new();
    for x in 1..=5 {
        let saved = repo.save(E { id: 0, x });
        assert_eq!(saved, E { id: u64::from(x), x });
    }
    let spec = QuerySpec::new()
        .filter_runtime(|e: &E| e.x % 2 == 1)
        .order_by(|a: &E, b: &E| b.x.cmp(&a.x))
        .offset(1)
        .limit(1);
    assert_eq!(repo.find(spec), vec![E { id: 3, x: 3 }]);
}

#[test]
fn saving_a_new_entity_only_sets_its_id() {
    let mut repo: InMemoryRepository<User, u64> = InMemoryRepository::new();
    repo.save(user("first", 1));
    let saved = repo.save(user("second", 2));
    assert_eq!(saved, User { id: 2, name: "second".to_string(), age: 2 });
}
