use bevy_enhanced_input::context::ContextActivity;
use bevy_enhanced_input::state::{set_context_activity, ActiveInStates};

struct Player;

const PLAYING: u64 = 0;
const PAUSED: u64 = 1;
const MENU: u64 = 2;

#[test]
fn single_state_matches_only_it() {
    let active_in = ActiveInStates::<Player>::single(PLAYING);
    assert!(active_in.matches(Some(PLAYING)));
    assert!(!active_in.matches(Some(PAUSED)));
    assert!(!active_in.matches(None));
}

#[test]
fn several_states_match_each() {
    let active_in = ActiveInStates::<Player>::new(vec![PLAYING, MENU]);
    assert!(active_in.matches(Some(PLAYING)));
    assert!(active_in.matches(Some(MENU)));
    assert!(!active_in.matches(Some(PAUSED)));
    assert!(!active_in.matches(None));
}

#[test]
fn no_states_match_nothing() {
    let active_in = ActiveInStates::<Player>::new(vec![]);
    assert!(!active_in.matches(Some(PLAYING)));
}

#[test]
fn clone_keeps_states() {
    let active_in = ActiveInStates::<Player>::new(vec![PAUSED]).clone();
    assert!(active_in.matches(Some(PAUSED)));
    assert!(!active_in.matches(Some(PLAYING)));
}

#[test]
fn activity_set_only_when_it_changes() {
    let inactive = ContextActivity::<Player>::inactive();
    let active = ContextActivity::<Player>::active();
    assert!(set_context_activity(Some(active), true).is_none());
    assert!(set_context_activity(Some(inactive), false).is_none());
    assert!(set_context_activity(Some(inactive), true).unwrap().is_active());
    assert!(!set_context_activity(Some(active), false).unwrap().is_active());
    assert!(set_context_activity(None::<ContextActivity<Player>>, true).unwrap().is_active());
    assert!(!set_context_activity(None::<ContextActivity<Player>>, false).unwrap().is_active());
}

#[test]
fn activity_follows_state() {
    let active_in = ActiveInStates::<Player>::single(PLAYING);
    let inactive = ContextActivity::<Player>::inactive();
    let entered = active_in.activity_for(Some(PLAYING), Some(inactive)).unwrap();
    assert!(entered.is_active());
    assert!(active_in.activity_for(Some(PLAYING), Some(entered)).is_none());
    let left = active_in.activity_for(Some(PAUSED), Some(entered)).unwrap();
    assert!(!left.is_active());
    assert!(active_in.activity_for(None, Some(left)).is_none());
}
