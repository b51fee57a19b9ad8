use std::any::TypeId;

use undine::{Context, ContextError, Slot};

fn count() -> Slot<u32> {
    Slot::new("count")
}

fn name() -> Slot<String> {
    Slot::new("name")
}

#[test]
fn insert_and_get() {
    let mut ctx = Context::new();
    assert!(!ctx.contains(count()));

    ctx.insert(count(), 42);
    assert!(ctx.contains(count()));
    assert_eq!(*ctx.get(count()).unwrap(), 42);
}

#[test]
fn insert_overwrites() {
    let mut ctx = Context::new();
    assert!(ctx.insert(count(), 1).is_none());
    assert_eq!(ctx.insert(count(), 2), Some(1));
    assert_eq!(*ctx.get(count()).unwrap(), 2);
}

#[test]
fn get_not_found() {
    let ctx = Context::new();
    let err = ctx.get(count()).unwrap_err();
    assert!(matches!(err, ContextError::NotFound { .. }));
    let msg = err.message();
    assert!(msg.contains("count"));
}

#[test]
fn get_mut_works() {
    let mut ctx = Context::new();
    ctx.insert(count(), 10);
    *ctx.get_mut(count()).unwrap() += 5;
    assert_eq!(*ctx.get(count()).unwrap(), 15);
}

#[test]
fn remove_works() {
    let mut ctx = Context::new();
    ctx.insert(name(), "hello".to_string());
    let val = ctx.remove(name()).unwrap();
    assert_eq!(val, "hello");
    assert!(!ctx.contains(name()));
}

#[test]
fn remove_not_found() {
    let mut ctx = Context::new();
    let err = ctx.remove(name()).unwrap_err();
    assert!(matches!(err, ContextError::NotFound { .. }));
}

#[test]
fn error_shows_registered_slots() {
    let mut ctx = Context::new();
    ctx.insert(count(), 1);
    ctx.insert(name(), "x".to_string());

    let err = ctx.get(Slot::<bool>::new("missing")).unwrap_err();
    let msg = err.message();
    assert!(msg.contains("count") || msg.contains("name"));
}

#[test]
fn not_found_lists_every_registered_slot_in_order() {
    let mut ctx = Context::new();
    ctx.insert(count(), 1);
    ctx.insert(name(), "x".to_string());
    match ctx.get(Slot::<bool>::new("missing")).unwrap_err() {
        ContextError::NotFound { slot_name, registered, .. } => {
            assert_eq!(slot_name, "missing");
            assert_eq!(registered, vec!["count", "name"]);
        }
        other => panic!("unexpected error: {:?}", other),
    }
    let msg = ctx.get(Slot::<bool>::new("missing")).unwrap_err().message();
    assert!(msg.starts_with("slot 'missing' not found (expected type: "));
    assert!(msg.ends_with("). Registered slots: [count, name]"));
}

#[test]
fn type_mismatch_on_get_keeps_value() {
    let mut ctx = Context::new();
    ctx.insert(count(), 7);
    let wrong: Slot<String> = Slot::new("count");
    let err = ctx.get(wrong).unwrap_err();
    assert!(matches!(err, ContextError::TypeMismatch { slot_name: "count", .. }));
    assert!(err.message().starts_with("slot 'count' type mismatch: expected "));
    assert!(matches!(ctx.get_mut(wrong), Err(ContextError::TypeMismatch { .. })));
    assert_eq!(*ctx.get(count()).unwrap(), 7);
}

#[test]
fn remove_with_wrong_type_leaves_value() {
    let mut ctx = Context::new();
    ctx.insert(count(), 3);
    let wrong: Slot<String> = Slot::new("count");
    assert!(matches!(ctx.remove(wrong), Err(ContextError::TypeMismatch { .. })));
    assert!(ctx.contains(count()));
    assert_eq!(ctx.remove(count()).unwrap(), 3);
    assert!(!ctx.contains(count()));
}

#[test]
fn insert_of_other_type_replaces_and_returns_none() {
    let mut ctx = Context::new();
    ctx.insert(count(), 3);
    let other: Slot<String> = Slot::new("count");
    assert!(ctx.insert(other, "three".to_string()).is_none());
    assert_eq!(ctx.get(other).unwrap(), "three");
    assert!(matches!(ctx.get(count()), Err(ContextError::TypeMismatch { .. })));
}

#[test]
fn slots_are_independent() {
    let mut ctx = Context::new();
    ctx.insert(count(), 1);
    ctx.insert(name(), "a".to_string());
    ctx.insert(count(), 2);
    assert_eq!(ctx.get(name()).unwrap(), "a");
    ctx.remove(name()).unwrap();
    assert_eq!(*ctx.get(count()).unwrap(), 2);
}

#[test]
fn default_context_is_empty() {
    let ctx = Context::default();
    assert!(!ctx.contains(count()));
    assert!(!ctx.runtime().params().contains("anything"));
}

#[test]
fn remove_undoes_insert() {
    let mut ctx = Context::new();
    ctx.insert(count(), 1);
    ctx.insert(name(), "n".to_string());
    ctx.remove(name()).unwrap();
    assert!(!ctx.contains(name()));
    match ctx.get(Slot::<bool>::new("missing")).unwrap_err() {
        ContextError::NotFound { registered, .. } => assert_eq!(registered, vec!["count"]),
        other => panic!("unexpected error: {:?}", other),
    }
    assert_eq!(*ctx.get(count()).unwrap(), 1);
}

#[test]
fn error_texts_in_full() {
    let mut ctx = Context::new();
    ctx.insert(count(), 1);
    ctx.insert(name(), "x".to_string());
    let msg = ctx.get(Slot::<bool>::new("missing")).unwrap_err().message();
    assert_eq!(
        msg,
        format!(
            "slot 'missing' not found (expected type: {:?}). Registered slots: [count, name]",
            TypeId::of::<bool>()
        )
    );
    let msg = ctx.get(Slot::<bool>::new("count")).unwrap_err().message();
    assert_eq!(
        msg,
        format!(
            "slot 'count' type mismatch: expected {:?}, got {:?}",
            TypeId::of::<bool>(),
            TypeId::of::<u32>()
        )
    );
}
