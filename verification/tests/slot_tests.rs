use std::collections::HashSet;

use undine::Slot;

#[test]
fn slot_copy_clone() {
    let slot: Slot<i32> = Slot::new("x");
    let copied = slot;
    let cloned = slot;
    assert_eq!(slot, copied);
    assert_eq!(slot, cloned);
}

#[test]
fn slot_eq() {
    let a: Slot<i32> = Slot::new("a");
    let b: Slot<i32> = Slot::new("a");
    let c: Slot<i32> = Slot::new("c");
    assert_eq!(a, b);
    assert_ne!(a, c);
}

#[test]
fn slot_hash() {
    let mut set = HashSet::new();
    set.insert(Slot::<i32>::new("x"));
    assert!(set.contains(&Slot::<i32>::new("x")));
}

#[test]
fn slot_name_is_kept() {
    let s: Slot<String> = Slot::new("message");
    assert_eq!(s.name(), "message");
    let c = s.clone();
    assert_eq!(c.name(), "message");
}

#[test]
fn slot_hashes_for_any_value_type() {
    struct Opaque;
    let mut set = HashSet::new();
    set.insert(Slot::<Opaque>::new("o"));
    assert!(set.contains(&Slot::<Opaque>::new("o")));
    assert!(!set.contains(&Slot::<Opaque>::new("p")));
}
