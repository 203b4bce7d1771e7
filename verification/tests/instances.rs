use bevy_enhanced_input::instances::{ContextInstance, ContextInstances};

fn order(instances: &ContextInstances) -> Vec<(u64, usize, usize)> {
    (0..instances.len())
        .map(|i| {
            let ContextInstance { entity, context_id, priority } = instances.get(i);
            (entity, context_id, priority)
        })
        .collect()
}

#[test]
fn higher_priority_is_evaluated_first() {
    let mut instances = ContextInstances::new();
    instances.add(1, 100, 0);
    instances.add(2, 100, 5);
    instances.add(3, 100, 2);
    assert_eq!(order(&instances), vec![(2, 100, 5), (3, 100, 2), (1, 100, 0)]);
}

#[test]
fn equal_priority_in_reverse_spawn_order() {
    let mut instances = ContextInstances::new();
    instances.add(1, 100, 0);
    instances.add(2, 100, 0);
    instances.add(3, 200, 0);
    assert_eq!(order(&instances), vec![(3, 200, 0), (2, 100, 0), (1, 100, 0)]);
}

#[test]
fn new_instance_goes_after_higher_and_before_equal() {
    let mut instances = ContextInstances::new();
    instances.add(1, 100, 3);
    instances.add(2, 100, 1);
    instances.add(3, 100, 1);
    instances.add(4, 100, 1);
    assert_eq!(
        order(&instances),
        vec![(1, 100, 3), (4, 100, 1), (3, 100, 1), (2, 100, 1)]
    );
}

#[test]
fn remove_takes_out_the_matching_instance() {
    let mut instances = ContextInstances::new();
    instances.add(1, 100, 0);
    instances.add(1, 200, 1);
    instances.add(2, 100, 0);
    assert!(instances.remove(1, 100));
    assert_eq!(order(&instances), vec![(1, 200, 1), (2, 100, 0)]);
}

#[test]
fn remove_missing_instance_changes_nothing() {
    let mut instances = ContextInstances::new();
    instances.add(1, 100, 0);
    assert!(!instances.remove(1, 200));
    assert!(!instances.remove(2, 100));
    assert_eq!(order(&instances), vec![(1, 100, 0)]);
}

#[test]
fn remove_undoes_add() {
    let mut instances = ContextInstances::new();
    instances.add(1, 100, 2);
    instances.add(2, 100, 1);
    let before = order(&instances);
    instances.add(3, 300, 1);
    assert!(instances.remove(3, 300));
    assert_eq!(order(&instances), before);
}
