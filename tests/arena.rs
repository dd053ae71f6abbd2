use roguelike_core::Arena;

#[test]
fn weak_refs_identical() {
    let mut arena = Arena::new();
    let a = arena.insert(5);
    let ref1 = a;
    let ref2 = a;
    assert!(arena.identical(ref1, ref2));
}

#[test]
fn weak_refs_not_identical() {
    let mut arena = Arena::new();
    let a = arena.insert(5);
    let b = arena.insert(5);
    let ref1 = a;
    let ref2 = b;
    assert!(!arena.identical(ref1, ref2));
}

#[test]
fn weak_refs_deallocated() {
    let mut arena = Arena::new();
    let a = arena.insert(5);
    let ref1 = a;
    let ref2 = a;
    assert_eq!(arena.remove(a), Some(5));
    assert!(!arena.identical(ref1, ref2));
}

#[test]
fn removed_handle_never_resolves_again() {
    let mut arena = Arena::new();
    let a = arena.insert(1);
    arena.remove(a);
    let b = arena.insert(2);
    assert_ne!(a, b);
    assert_eq!(arena.get(a), None);
    assert_eq!(arena.get(b), Some(&2));
    assert!(!arena.contains(a));
    assert!(arena.contains(b));
    assert_eq!(arena.remove(a), None);
}

#[test]
fn get_mut_changes_the_value() {
    let mut arena = Arena::new();
    let a = arena.insert(1);
    *arena.get_mut(a).unwrap() = 7;
    assert_eq!(arena.get(a), Some(&7));
}
