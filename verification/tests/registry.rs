use bevy_enhanced_input::registry::{ContextRegistry, ScheduleContexts};

#[test]
fn schedule_contexts_start_empty() {
    let contexts = ScheduleContexts::new(9);
    assert_eq!(contexts.schedule_id(), 9);
    assert!(contexts.actions_ids().is_empty());
    assert!(contexts.activity_ids().is_empty());
}

#[test]
fn first_context_creates_schedule() {
    let mut registry = ContextRegistry::new();
    assert_eq!(registry.len(), 0);
    assert!(registry.register(1, 10, 11));
    assert_eq!(registry.len(), 1);
    let entry = registry.get(0);
    assert_eq!(entry.schedule_id(), 1);
    assert_eq!(entry.actions_ids(), &vec![10]);
    assert_eq!(entry.activity_ids(), &vec![11]);
}

#[test]
fn contexts_of_one_schedule_share_its_entry() {
    let mut registry = ContextRegistry::new();
    assert!(registry.register(1, 10, 11));
    assert!(!registry.register(1, 20, 21));
    assert_eq!(registry.len(), 1);
    assert_eq!(registry.get(0).actions_ids(), &vec![10, 20]);
    assert_eq!(registry.get(0).activity_ids(), &vec![11, 21]);
}

#[test]
fn schedules_keep_order_of_first_use() {
    let mut registry = ContextRegistry::new();
    registry.register(5, 10, 11);
    registry.register(3, 20, 21);
    registry.register(5, 30, 31);
    assert_eq!(registry.len(), 2);
    assert_eq!(registry.get(0).schedule_id(), 5);
    assert_eq!(registry.get(0).actions_ids(), &vec![10, 30]);
    assert_eq!(registry.get(1).schedule_id(), 3);
    assert_eq!(registry.get(1).actions_ids(), &vec![20]);
    assert_eq!(registry.get(1).activity_ids(), &vec![21]);
}

#[test]
fn find_and_is_registered() {
    let mut registry = ContextRegistry::new();
    registry.register(5, 10, 11);
    registry.register(3, 20, 21);
    assert_eq!(registry.find(3), Some(1));
    assert_eq!(registry.find(4), None);
    assert!(registry.is_registered(5, 10));
    assert!(registry.is_registered(3, 20));
    assert!(!registry.is_registered(3, 10));
    assert!(!registry.is_registered(7, 10));
}

#[test]
fn registration_is_kept_by_later_ones() {
    let mut registry = ContextRegistry::new();
    registry.register(5, 10, 11);
    registry.register(5, 12, 13);
    registry.register(6, 14, 15);
    assert!(registry.is_registered(5, 10));
    assert!(registry.is_registered(5, 12));
    assert!(registry.is_registered(6, 14));
}
