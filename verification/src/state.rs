//! Synchronisation of input contexts with application states.
//!
//! A context declares the states in which it is active; whenever the state
//! changes, or the declaration is inserted, its activity is set to whether
//! the current state is one of them. States are identified by keys.

use core::marker::PhantomData;
use vstd::prelude::*;

use crate::context::ContextActivity;
use crate::external::{
    state_keys_clone, state_keys_collect, state_keys_contains, state_keys_from_buf,
    state_keys_items, StateKeys,
};

verus! {

/// The states, by key, in which context `C` is active; it is inactive in all
/// others and where there is no current state.
pub struct ActiveInStates<C> {
    states: StateKeys,
    marker: PhantomData<C>,
}

impl<C> View for ActiveInStates<C> {
    type V = Seq<u64>;

    closed spec fn view(&self) -> Seq<u64> {
        state_keys_items(self.states)
    }
}

/// Whether the current state, if there is one, is among `states`.
pub open spec fn state_matches(states: Seq<u64>, current: Option<u64>) -> bool {
    match current {
        Some(state) => states.contains(state),
        None => false,
    }
}

/// A state matches exactly when it is one of the declared states, and the
/// absence of a state matches nothing.
pub proof fn law_matches_declared_states(states: Seq<u64>, current: Option<u64>)
    ensures
        current is None ==> !state_matches(states, current),
        forall|s: u64| current == Some(s) ==> (state_matches(states, current) <==> exists|i: int|
            0 <= i < states.len() && states[i] == s),
{
}

/// The activity to insert on a context whose activity is `current` so that it
/// becomes `active`: none where it already is.
pub open spec fn activity_change(current: Option<bool>, active: bool) -> Option<bool> {
    match current {
        Some(a) if a == active => None,
        _ => Some(active),
    }
}

/// The view of an optional activity.
pub open spec fn activity_view<C>(a: Option<ContextActivity<C>>) -> Option<bool> {
    match a {
        Some(a) => Some(a@),
        None => None,
    }
}

impl<C> ActiveInStates<C> {
    /// Creates a new instance for a single state.
    pub fn single(state: u64) -> (r: Self)
        ensures
            r@ == seq![state],
    {
        let states = state_keys_from_buf([state]);
        proof {
            assert([state]@ =~= seq![state]);
        }
        ActiveInStates { states, marker: PhantomData }
    }

    /// Creates a new instance for multiple states.
    pub fn new(states: Vec<u64>) -> (r: Self)
        ensures
            r@ == states@,
    {
        ActiveInStates { states: state_keys_collect(states), marker: PhantomData }
    }

    /// Returns `true` if the state exists and matches any of the active states.
    pub fn matches(&self, current: Option<u64>) -> (r: bool)
        ensures
            r == state_matches(self@, current),
            current is None ==> !r,
            forall|s: u64| current == Some(s) ==> (r <==> self@.contains(s)),
    {
        proof {
            law_matches_declared_states(self@, current);
        }
        match current {
            Some(state) => state_keys_contains(&self.states, state),
            None => false,
        }
    }

    /// The activity to insert on the context when the current state is
    /// `current_state` and its activity is `current`: none where the activity
    /// already matches the state.
    pub fn activity_for(
        &self,
        current_state: Option<u64>,
        current: Option<ContextActivity<C>>,
    ) -> (r: Option<ContextActivity<C>>)
        ensures
            activity_view(r) == activity_change(
                activity_view(current),
                state_matches(self@, current_state),
            ),
    {
        let active = self.matches(current_state);
        set_context_activity(current, active)
    }
}

impl<C> Clone for ActiveInStates<C> {
    fn clone(&self) -> (r: Self)
        ensures
            r@ == self@,
    {
        ActiveInStates { states: state_keys_clone(&self.states), marker: PhantomData }
    }
}

/// The activity to insert on a context whose activity is `current` so that it
/// becomes `active`: none where it already is.
pub fn set_context_activity<C>(current: Option<ContextActivity<C>>, active: bool) -> (r: Option<
    ContextActivity<C>,
>)
    ensures
        activity_view(r) == activity_change(activity_view(current), active),
{
    if let Some(a) = current {
        if a.is_active() == active {
            return None;
        }
    }
    Some(ContextActivity::new(active))
}

/// Once a context's activity has been set for a state, setting it again for
/// the same state changes nothing.
pub proof fn law_sync_settles(states: Seq<u64>, current_state: Option<u64>, current: Option<bool>)
    ensures
        activity_change(
            match activity_change(current, state_matches(states, current_state)) {
                Some(a) => Some(a),
                None => current,
            },
            state_matches(states, current_state),
        ) == None::<bool>,
{
}

/// After syncing, a context is active exactly when the current state is one
/// of its states.
pub proof fn law_sync_activity_follows_state(
    states: Seq<u64>,
    current_state: Option<u64>,
    current: Option<bool>,
)
    ensures
        match activity_change(current, state_matches(states, current_state)) {
            Some(a) => Some(a),
            None => current,
        } == Some(state_matches(states, current_state)),
{
}

} // verus!
