use ka::arena::{Arena, Id};

#[test]
fn get_after_add() {
    let mut arena = Arena::new();
    let a = arena.add("a");
    let b = arena.add("b");
    assert_eq!(arena.get(a), Some(&"a"));
    assert_eq!(arena.get(b), Some(&"b"));
    assert_eq!(a.index(), 0);
    assert_eq!(b.index(), 1);
    assert!(a != b);
}

#[test]
fn reserved_slot_is_empty_until_inserted() {
    let mut arena: Arena<u32> = Arena::new();
    let r = arena.reserve();
    assert_eq!(arena.get(r), None);
    arena.insert(r, 7);
    assert_eq!(arena.get(r), Some(&7));
    arena.insert(r, 8);
    assert_eq!(arena.get(r), Some(&8));
}

#[test]
fn insert_past_the_end_does_nothing() {
    let mut other: Arena<u32> = Arena::new();
    other.add(1);
    let far: Id<u32> = other.add(2);
    let mut arena: Arena<u32> = Arena::new();
    arena.add(5);
    arena.insert(far, 9);
    assert_eq!(arena.get(far), None);
    assert_eq!(arena.keys().len(), 1);
}

#[test]
fn get_mut_writes_the_slot() {
    let mut arena = Arena::new();
    let a = arena.add(1);
    let b = arena.add(2);
    *arena.get_mut(a).unwrap() = 10;
    assert_eq!(arena.get(a), Some(&10));
    assert_eq!(arena.get(b), Some(&2));
    let r = arena.reserve();
    assert!(arena.get_mut(r).is_none());
}

#[test]
fn keys_and_iter_skip_reserved_slots() {
    let mut arena = Arena::default();
    let a = arena.add('a');
    let _ = arena.reserve();
    let c = arena.add('c');
    assert_eq!(arena.keys(), vec![a, c]);
    let items: Vec<(usize, char)> = arena.iter().into_iter().map(|(id, c)| (id.index(), *c)).collect();
    assert_eq!(items, vec![(0, 'a'), (2, 'c')]);
}
