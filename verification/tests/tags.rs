use chisel::ecs::error::CoreError;
use chisel::tag::id::{TagId, MAX_TAGS};
use chisel::tag::registry::TagRegistry;
use chisel::tag::set::TagSet;

#[test]
fn intern_returns_stable_id_and_round_trips_name() {
    let mut registry = TagRegistry::new();

    let first = registry.intern("Player").expect("tag should intern");
    let second = registry.intern("Player").expect("tag should intern again");

    assert_eq!(first, second);
    assert_eq!(registry.lookup("Player"), Some(first));
    assert_eq!(registry.name(first), Some("Player"));
    assert_eq!(registry.len(), 1);
}

#[test]
fn intern_rejects_names_after_bitset_capacity() {
    let mut registry = TagRegistry::new();

    for index in 0..MAX_TAGS {
        registry
            .intern(&format!("Tag{index}"))
            .expect("tag should fit before capacity");
    }

    let error = registry
        .intern("TooMany")
        .expect_err("tag namespace should be full");

    match error {
        CoreError::TagsFull(count) => assert_eq!(count, MAX_TAGS),
        other => panic!("unexpected error: {other:?}"),
    }
}

#[test]
fn tag_set_insert_remove_and_iterate_in_ascending_order() {
    let mut set = TagSet::new();
    assert!(set.is_empty());
    assert!(set.insert(TagId(5)));
    assert!(set.insert(TagId(1)));
    assert!(!set.insert(TagId(5)));
    assert_eq!(set.len(), 2);
    assert!(set.contains(TagId(1)));
    assert!(!set.contains(TagId(2)));

    let mut ids = Vec::new();
    let mut iter = set.iter();
    while let Some(id) = iter.next() {
        ids.push(id);
    }
    assert_eq!(ids, vec![TagId(1), TagId(5)]);

    assert!(set.remove(TagId(1)));
    assert!(!set.remove(TagId(1)));
    assert_eq!(set.len(), 1);
}

#[test]
fn tag_set_superset_and_intersection() {
    let mut a = TagSet::new();
    a.insert(TagId(0));
    a.insert(TagId(127));
    let mut b = TagSet::new();
    b.insert(TagId(127));
    assert!(a.contains_all(&b));
    assert!(!b.contains_all(&a));
    assert!(a.intersects(&b));
    let c = TagSet::new();
    assert!(!a.intersects(&c));
    assert!(a.contains_all(&c));
}

#[test]
fn registry_is_full_after_capacity_and_names_are_distinct() {
    let mut registry = TagRegistry::new();
    assert!(registry.is_empty());
    let a = registry.intern("a").expect("fits");
    let b = registry.intern("b").expect("fits");
    assert_ne!(a, b);
    assert_eq!(registry.name(b), Some("b"));
    assert_eq!(registry.name(TagId(99)), None);
    assert_eq!(registry.lookup("c"), None);
    assert!(!registry.is_full());
}
