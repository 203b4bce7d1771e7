use bevy_enhanced_input::evaluation::{
    action_source, bindings_to_block, max_mod_keys, order_actions, pass_reset_gate, ActionSource,
    BindingAccumulator, BindingStep, MockSpan, TriggerState,
};

#[test]
fn trigger_state_significance() {
    assert_eq!(TriggerState::Idle.significance(), 0);
    assert_eq!(TriggerState::Ongoing.significance(), 1);
    assert_eq!(TriggerState::Fired.significance(), 2);
    assert_eq!(TriggerState::default(), TriggerState::Idle);
}

#[test]
fn max_mod_keys_of_bindings() {
    assert_eq!(max_mod_keys(&vec![]), 0);
    assert_eq!(max_mod_keys(&vec![1, 3, 2]), 3);
    assert_eq!(max_mod_keys(&vec![0, 0]), 0);
}

#[test]
fn actions_with_more_mod_keys_come_first() {
    let mut actions = vec![(1, 0), (2, 2), (3, 1)];
    order_actions(&mut actions);
    assert_eq!(actions, vec![(2, 2), (3, 1), (1, 0)]);
}

#[test]
fn ordering_keeps_equal_actions_in_place() {
    let mut actions = vec![(1, 0), (2, 1), (3, 0), (4, 1), (5, 0)];
    order_actions(&mut actions);
    assert_eq!(actions, vec![(2, 1), (4, 1), (1, 0), (3, 0), (5, 0)]);
}

#[test]
fn ordering_ordered_actions_changes_nothing() {
    let mut actions = vec![(7, 3), (1, 2), (9, 2), (4, 0)];
    let before = actions.clone();
    order_actions(&mut actions);
    assert_eq!(actions, before);
    let mut empty: Vec<(u64, usize)> = vec![];
    order_actions(&mut empty);
    assert!(empty.is_empty());
}

#[test]
fn source_of_action_state() {
    assert_eq!(action_source(false, true), ActionSource::Inactive);
    assert_eq!(action_source(false, false), ActionSource::Inactive);
    assert_eq!(action_source(true, true), ActionSource::Mock);
    assert_eq!(action_source(true, false), ActionSource::Bindings);
}

#[test]
fn mock_updates_span_counts_down() {
    let mut span = MockSpan::Updates(2);
    assert!(!span.tick(10));
    assert_eq!(span, MockSpan::Updates(1));
    assert!(span.tick(10));
    assert_eq!(span, MockSpan::Updates(0));
    assert!(span.tick(10));
    assert_eq!(span, MockSpan::Updates(0));
}

#[test]
fn mock_duration_span_runs_down() {
    let mut span = MockSpan::Duration(25);
    assert!(!span.tick(10));
    assert_eq!(span, MockSpan::Duration(15));
    assert!(!span.tick(10));
    assert_eq!(span, MockSpan::Duration(5));
    assert!(span.tick(10));
    assert_eq!(span, MockSpan::Duration(0));
}

#[test]
fn mock_manual_span_never_runs_out() {
    let mut span = MockSpan::Manual;
    for _ in 0..5 {
        assert!(!span.tick(1_000_000));
    }
    assert_eq!(span, MockSpan::Manual);
}

#[test]
fn reset_gate_without_reset_requirement() {
    let mut first = true;
    assert!(pass_reset_gate(false, &mut first, true));
    assert!(first);
}

#[test]
fn reset_gate_waits_for_released_input() {
    let mut first = true;
    assert!(!pass_reset_gate(true, &mut first, true));
    assert!(first);
    assert!(pass_reset_gate(true, &mut first, false));
    assert!(!first);
    assert!(pass_reset_gate(true, &mut first, true));
    assert!(!first);
}

#[test]
fn accumulator_ignores_idle_and_weaker_bindings() {
    let mut acc = BindingAccumulator::new(TriggerState::Ongoing, true);
    assert_eq!(acc.step(1, TriggerState::Idle), BindingStep::Ignore);
    assert!(acc.consume_buffer().is_empty());
    acc.sync(TriggerState::Fired);
    assert_eq!(acc.step(2, TriggerState::Ongoing), BindingStep::Ignore);
    assert!(acc.consume_buffer().is_empty());
    assert_eq!(acc.tracker_state(), TriggerState::Fired);
}

#[test]
fn accumulator_combines_equal_and_overwrites_stronger() {
    let mut acc = BindingAccumulator::new(TriggerState::Idle, true);
    assert_eq!(acc.step(1, TriggerState::Ongoing), BindingStep::Overwrite);
    acc.sync(TriggerState::Ongoing);
    assert_eq!(acc.step(2, TriggerState::Ongoing), BindingStep::Combine);
    assert_eq!(acc.consume_buffer(), &vec![1, 2]);
    assert_eq!(acc.step(3, TriggerState::Fired), BindingStep::Overwrite);
    acc.sync(TriggerState::Fired);
    assert_eq!(acc.consume_buffer(), &vec![3]);
    assert_eq!(acc.step(4, TriggerState::Fired), BindingStep::Combine);
    assert_eq!(acc.finish(TriggerState::Fired), vec![3, 4]);
}

#[test]
fn accumulator_consumes_nothing_when_idle() {
    let mut acc = BindingAccumulator::new(TriggerState::Idle, true);
    acc.step(1, TriggerState::Fired);
    acc.sync(TriggerState::Fired);
    assert_eq!(acc.finish(TriggerState::Idle), Vec::<u64>::new());
}

#[test]
fn accumulator_without_consumption_buffers_nothing() {
    let mut acc = BindingAccumulator::new(TriggerState::Idle, false);
    assert_eq!(acc.step(1, TriggerState::Fired), BindingStep::Overwrite);
    acc.sync(TriggerState::Fired);
    assert_eq!(acc.step(2, TriggerState::Fired), BindingStep::Combine);
    assert!(acc.consume_buffer().is_empty());
    assert_eq!(acc.finish(TriggerState::Fired), Vec::<u64>::new());
}

#[test]
fn active_context_blocks_nothing() {
    let actions = vec![(true, vec![1, 2])];
    assert_eq!(bindings_to_block(true, &actions), Vec::<u64>::new());
}

#[test]
fn inactive_context_blocks_bindings_requiring_reset() {
    let actions = vec![(true, vec![1, 2]), (false, vec![3]), (true, vec![4])];
    assert_eq!(bindings_to_block(false, &actions), vec![1, 2, 4]);
    assert_eq!(bindings_to_block(false, &vec![]), Vec::<u64>::new());
}

#[test]
fn mock_lasting_three_updates_runs_out_on_the_third() {
    let mut span = MockSpan::Updates(3);
    let expired: Vec<bool> = (0..3).map(|_| span.tick(16_000_000)).collect();
    assert_eq!(expired, vec![false, false, true]);
}

#[test]
fn most_significant_bindings_are_consumed() {
    // A tracker that takes the state of a replacing binding and keeps its
    // state when combining an equal one.
    let events = [
        (1, TriggerState::Ongoing),
        (2, TriggerState::Fired),
        (3, TriggerState::Idle),
        (4, TriggerState::Fired),
        (5, TriggerState::Ongoing),
    ];
    let mut acc = BindingAccumulator::new(TriggerState::Idle, true);
    for (binding, state) in events {
        if acc.step(binding, state) == BindingStep::Overwrite {
            acc.sync(state);
        }
    }
    assert_eq!(acc.tracker_state(), TriggerState::Fired);
    assert_eq!(acc.finish(TriggerState::Fired), vec![2, 4]);
}

#[test]
fn mock_duration_runs_out_when_time_has_elapsed() {
    let mut span = MockSpan::Duration(50);
    let expired: Vec<bool> = (0..3).map(|_| span.tick(20)).collect();
    assert_eq!(expired, vec![false, false, true]);
}
