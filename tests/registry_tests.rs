use rsvp::registry::Registry;

#[test]
fn register_then_snapshot() {
    let mut r: Registry<u32> = Registry::new();
    r.register("room", "a", 1);
    r.register("room", "b", 2);
    r.register("other", "a", 3);
    let mut snap = r.snapshot("room");
    snap.sort();
    assert_eq!(snap, vec![("a".to_string(), 1), ("b".to_string(), 2)]);
    assert_eq!(r.snapshot("other"), vec![("a".to_string(), 3)]);
}

#[test]
fn duplicate_register_replaces_handle() {
    let mut r: Registry<u32> = Registry::new();
    r.register("room", "a", 1);
    r.register("room", "a", 7);
    assert_eq!(r.snapshot("room"), vec![("a".to_string(), 7)]);
}

#[test]
fn unregister_removes_participant() {
    let mut r: Registry<u32> = Registry::new();
    r.register("room", "a", 1);
    r.register("room", "b", 2);
    r.unregister("room", "a");
    assert_eq!(r.snapshot("room"), vec![("b".to_string(), 2)]);
    assert!(r.contains_room("room"));
}

#[test]
fn last_participant_leaving_removes_room() {
    let mut r: Registry<u32> = Registry::new();
    r.register("room", "a", 1);
    r.unregister("room", "a");
    assert!(r.snapshot("room").is_empty());
    assert!(!r.contains_room("room"));
}

#[test]
fn snapshot_of_unknown_room_is_empty() {
    let r: Registry<u32> = Registry::new();
    assert!(r.snapshot("nowhere").is_empty());
    assert!(!r.contains_room("nowhere"));
}

#[test]
fn unregister_unknown_is_harmless() {
    let mut r: Registry<u32> = Registry::new();
    r.register("room", "a", 1);
    r.unregister("room", "zz");
    r.unregister("nowhere", "a");
    assert_eq!(r.snapshot("room"), vec![("a".to_string(), 1)]);
}
