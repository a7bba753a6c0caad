use zhttpsocket::arena::{arena_size, MessageArena};

#[test]
fn arena_size_formula() {
    // room for every handle's full queue, the retained messages, and one
    // message in flight
    assert_eq!(arena_size(1, 1), 1024 + 1 + 1);
    assert_eq!(arena_size(0, 0), 1);
    assert_eq!(arena_size(100, 7), 1024 * 100 + 7 + 1);
}

#[test]
fn arena_fills_exactly_to_capacity() {
    let mut arena = MessageArena::new(5);
    let mut slots = Vec::new();
    for _ in 0..5 {
        let slot = arena.allocate().expect("a slot must be free");
        assert!(!slots.contains(&slot));
        slots.push(slot);
    }
    assert!(arena.allocate().is_none());
    // releasing one message makes the next allocation succeed again
    let freed = arena.dec_ref(slots[2]);
    assert!(freed);
    assert_eq!(arena.allocate(), Some(slots[2]));
}

#[test]
fn refcount_frees_only_at_zero() {
    let mut arena = MessageArena::new(1);
    let slot = arena.allocate().unwrap();
    arena.inc_ref(slot);
    arena.inc_ref(slot);
    assert!(!arena.dec_ref(slot));
    assert!(!arena.dec_ref(slot));
    assert!(arena.allocate().is_none());
    assert!(arena.dec_ref(slot));
    assert!(arena.allocate().is_some());
}
