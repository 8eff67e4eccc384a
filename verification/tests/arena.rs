use vm_library::arena::Arena;
use vm_library::integer::Integer;
use vm_library::value::Value;

fn num(n: i64) -> Value {
    Value::Int(Integer::from_i64(n))
}

#[test]
fn arena_insert_then_get() {
    let mut arena = Arena::new();
    assert_eq!(arena.len(), 0);
    let a = arena.insert(num(1));
    let b = arena.insert(num(2));
    assert_ne!(a, b);
    assert_eq!(arena.len(), 2);
    assert_eq!(arena.get(a), Some(&num(1)));
    assert_eq!(arena.get(b), Some(&num(2)));
}

#[test]
fn arena_handles_encode_slot_and_generation() {
    let mut arena = Arena::new();
    let a = arena.insert(Value::Unit);
    let b = arena.insert(Value::Unit);
    assert_eq!(a, (1u64 << 32) | 1);
    assert_eq!(b, (1u64 << 32) | 2);
    assert_eq!(a | 0x1_0000_0000, a);
}

#[test]
fn arena_get_reads_a_handle_with_its_generation_bit_set() {
    let mut arena = Arena::new();
    let a = arena.insert(num(9));
    assert_eq!(arena.get(a & 0xFFFF_FFFF), Some(&num(9)));
    assert_eq!(arena.get(1), Some(&num(9)));
}

#[test]
fn arena_remove_hands_the_value_out_once() {
    let mut arena = Arena::new();
    let a = arena.insert(num(1));
    let b = arena.insert(num(2));
    assert_eq!(arena.remove(a), Some(num(1)));
    assert_eq!(arena.remove(a), None);
    assert_eq!(arena.get(a), None);
    assert_eq!(arena.get(b), Some(&num(2)));
    assert_eq!(arena.len(), 1);
}

#[test]
fn arena_unknown_handles_resolve_to_nothing() {
    let mut arena = Arena::new();
    assert_eq!(arena.get(0), None);
    assert_eq!(arena.get(12345), None);
    assert_eq!(arena.get(u64::MAX), None);
    assert_eq!(arena.remove(77), None);
    arena.insert(Value::Unit);
    assert_eq!(arena.get((3u64 << 32) | 1), None);
}

#[test]
fn arena_clear_invalidates_every_handle() {
    let mut arena = Arena::new();
    let handles: Vec<u64> = (0..10).map(|i| arena.insert(num(i))).collect();
    arena.clear();
    assert_eq!(arena.len(), 0);
    for h in &handles {
        assert_eq!(arena.get(*h), None);
        assert_eq!(arena.remove(*h), None);
    }
}

#[test]
fn arena_handles_after_clear_are_new() {
    let mut arena = Arena::new();
    let before: Vec<u64> = (0..10).map(|i| arena.insert(num(i))).collect();
    arena.clear();
    let after: Vec<u64> = (0..20).map(|i| arena.insert(num(100 + i))).collect();
    for h in &after {
        assert!(!before.contains(h));
    }
    for h in &before {
        assert_eq!(arena.get(*h), None);
    }
    for (i, h) in after.iter().enumerate() {
        assert_eq!(arena.get(*h), Some(&num(100 + i as i64)));
    }
}

#[test]
fn arena_reuses_slots_under_new_handles() {
    let mut arena = Arena::new();
    let a = arena.insert(num(1));
    arena.remove(a);
    let b = arena.insert(num(2));
    assert_ne!(a, b);
    assert_eq!(b & 0xFFFF_FFFF, a & 0xFFFF_FFFF);
    assert_eq!(arena.get(a), None);
    assert_eq!(arena.get(b), Some(&num(2)));
}

#[test]
fn arena_has_room_up_to_its_limit() {
    let mut arena = Arena::new();
    assert!(arena.room_for(0));
    assert!(arena.room_for(vm_library::arena::ARENA_LIMIT));
    assert!(!arena.room_for(vm_library::arena::ARENA_LIMIT + 1));
    assert!(!arena.room_for(u64::MAX));
    let h = arena.try_insert(num(4)).unwrap();
    assert_eq!(arena.get(h), Some(&num(4)));
    assert!(arena.room_for(vm_library::arena::ARENA_LIMIT - 1));
    assert!(!arena.room_for(vm_library::arena::ARENA_LIMIT));
}
