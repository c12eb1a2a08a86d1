use mosaic::binder::table::{HandleTable, Released, Target};

#[test]
fn handle_zero_is_the_service_manager() {
    let table = HandleTable::new();
    assert_eq!(table.target(0), Some(Target::ServiceManager));
    assert_eq!(table.strong(0), Some(1));
}

#[test]
fn the_same_object_gets_the_same_handle() {
    let mut table = HandleTable::new();
    let first = table.handle_for(Target::Remote { node: 7, owner: 2 });
    let second = table.handle_for(Target::Remote { node: 7, owner: 2 });
    assert_eq!(first, second);
    assert_eq!(table.strong(first), Some(2));
    assert_eq!(table.len(), 2, "handle 0 and the one object");
}

#[test]
fn a_dropped_handle_is_not_handed_out_again_while_in_use() {
    let mut table = HandleTable::new();
    let a = table.handle_for(Target::Remote { node: 1, owner: 2 });
    let b = table.handle_for(Target::Remote { node: 2, owner: 2 });
    assert_ne!(a, b);
    assert_eq!(
        table.release(a).unwrap(),
        Released::Dropped(Target::Remote { node: 1, owner: 2 })
    );

    let c = table.handle_for(Target::Remote { node: 3, owner: 2 });
    assert!(table.contains(c));
    assert!(!table.contains(a), "a released handle must not be live again");
}

#[test]
fn references_hold_an_object_open() {
    let mut table = HandleTable::new();
    let handle = table.handle_for(Target::Remote { node: 9, owner: 3 });
    let again = table.handle_for(Target::Remote { node: 9, owner: 3 });
    assert_eq!(handle, again);

    assert_eq!(
        table.release(handle).unwrap(),
        Released::Counted { strong: 1 },
        "one reference remains"
    );
    assert!(table.contains(handle), "the object is still reachable");
    assert_eq!(
        table.release(handle).unwrap(),
        Released::Dropped(Target::Remote { node: 9, owner: 3 })
    );
    assert!(!table.contains(handle));
}

#[test]
fn a_weak_reference_alone_does_not_keep_an_entry() {
    let mut table = HandleTable::new();
    let handle = table.handle_for(Target::Remote { node: 4, owner: 1 });
    table.release(handle).unwrap();
    assert!(!table.contains(handle));

    let handle = table.handle_for(Target::Remote { node: 5, owner: 1 });
    table.dec_refs(handle).unwrap();
    assert!(table.contains(handle), "a strong reference is still held");
    assert_eq!(
        table.release(handle).unwrap(),
        Released::Dropped(Target::Remote { node: 5, owner: 1 })
    );
}

#[test]
fn a_dead_owner_takes_its_handles_with_it() {
    let mut table = HandleTable::new();
    table.handle_for(Target::Remote { node: 1, owner: 7 });
    table.handle_for(Target::Remote { node: 2, owner: 7 });
    table.handle_for(Target::Remote { node: 3, owner: 8 });

    let dropped = table.drop_owner(7);
    assert_eq!(dropped.len(), 2);
    assert!(dropped.iter().all(|(_, node)| *node != 3));
    assert!(table.contains(0), "the service manager is not owned by 7");
    let survivor = table.find(&Target::Remote { node: 3, owner: 8 }).unwrap();
    assert!(table.contains(survivor), "another process's object is untouched");
}

#[test]
fn releasing_an_unknown_handle_is_an_error() {
    let mut table = HandleTable::new();
    assert!(table.release(99).is_err());
    assert!(table.acquire(99).is_err());
}

#[test]
fn handles_are_listed_in_order() {
    let mut table = HandleTable::new();
    let a = table.handle_for(Target::Local(40));
    let b = table.handle_for(Target::Remote { node: 41, owner: 9 });
    let listed = table.handles();
    assert_eq!(listed, vec![(0, Target::ServiceManager), (a, Target::Local(40)), (b, Target::Remote { node: 41, owner: 9 })]);
    assert_eq!(Target::Remote { node: 41, owner: 9 }.owner(), Some(9));
    assert_eq!(Target::ServiceManager.node(), None);
}

#[test]
fn weak_references_are_counted_apart() {
    let mut table = HandleTable::new();
    let h = table.handle_for(Target::Local(5));
    table.inc_refs(h).unwrap();
    assert_eq!(table.weak(h), Some(2));
    assert_eq!(table.acquire(h).unwrap(), Target::Local(5));
    assert_eq!(table.strong(h), Some(2));
    assert!(table.inc_refs(1234).is_err());
}

#[test]
fn handle_zero_is_never_released() {
    let mut table = HandleTable::new();
    assert_eq!(table.release(0).unwrap(), Released::Counted { strong: 1 });
    assert!(table.contains(0));
    assert_eq!(table.target(0), Some(Target::ServiceManager));
    assert_eq!(table.strong(0), Some(1));
    assert_eq!(table.release(0).unwrap(), Released::Counted { strong: 1 });
    assert_eq!(table.len(), 1);
}
