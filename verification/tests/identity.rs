use std::collections::HashSet;

use rust_api::id::Id;
use rust_api::validators::validate_uuid;

struct User;
struct Post;

#[test]
fn fresh_ids_are_valid_uuid_v4_text() {
    for _ in 0..200 {
        let id: Id<User> = Id::new();
        let text = id.to_string();
        assert_eq!(text.len(), 36);
        assert!(validate_uuid("id", &text).is_ok(), "{text} is not a UUID v4");
        assert_eq!(text, id.value().to_string());
        assert_eq!(id.value().get_version_num(), 4);
    }
}

#[test]
fn fresh_ids_are_never_nil_and_differ() {
    let a: Id<Post> = Id::new();
    let b: Id<Post> = Id::new();
    assert!(a != Id::nil());
    assert!(a != b);
    assert!(a == a.clone());
}

#[test]
fn nil_is_the_default_and_all_zeros() {
    let nil: Id<User> = Id::nil();
    assert_eq!(nil.to_string(), "00000000-0000-0000-0000-000000000000");
    assert!(nil == Id::default());
    assert!(nil.value().is_nil());
    assert!(validate_uuid("id", &nil.to_string()).is_err());
}

#[test]
fn ids_are_copy_and_hashable() {
    let a: Id<u8> = Id::new();
    let b = a;
    let mut set = HashSet::new();
    set.insert(a);
    set.insert(b);
    set.insert(Id::nil());
    assert_eq!(set.len(), 2);
}
