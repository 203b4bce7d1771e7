//! Components attached to input-context entities: activity, priority and the
//! gamepad that feeds them.

use core::marker::PhantomData;
use bevy::ecs::entity::Entity;
use vstd::prelude::*;

verus! {

/// Enables or disables all action updates from inputs and mocks for context `C`.
///
/// By default, all contexts are active.
pub struct ContextActivity<C> {
    active: bool,
    marker: PhantomData<C>,
}

impl<C> View for ContextActivity<C> {
    type V = bool;

    /// Whether the context is active.
    closed spec fn view(&self) -> bool {
        self.active
    }
}

impl<C> ContextActivity<C> {
    /// Active context.
    pub fn active() -> (r: Self)
        ensures
            r@,
    {
        Self { active: true, marker: PhantomData }
    }

    /// Inactive context.
    pub fn inactive() -> (r: Self)
        ensures
            !r@,
    {
        Self { active: false, marker: PhantomData }
    }

    /// Creates a new instance with the given value.
    pub fn new(active: bool) -> (r: Self)
        ensures
            r@ == active,
    {
        Self { active, marker: PhantomData }
    }

    /// Returns a new instance with the value inverted.
    pub fn toggled(self) -> (r: Self)
        ensures
            r@ == !self@,
    {
        if self.active {
            Self::inactive()
        } else {
            Self::active()
        }
    }

    /// Whether the context is active.
    pub fn is_active(&self) -> (r: bool)
        ensures
            r == self@,
    {
        self.active
    }
}

impl<C> Default for ContextActivity<C> {
    fn default() -> (r: Self)
        ensures
            r@,
    {
        Self::active()
    }
}

impl<C> Clone for ContextActivity<C> {
    fn clone(&self) -> (r: Self)
        ensures
            r == *self,
    {
        *self
    }
}

impl<C> Copy for ContextActivity<C> {

}

/// Toggling an activity twice gives back the activity.
pub proof fn law_toggled_twice<C>(a: ContextActivity<C>, once: ContextActivity<C>, twice: ContextActivity<C>)
    requires
        once@ == !a@,
        twice@ == !once@,
    ensures
        twice == a,
{
}

impl<C> core::ops::Deref for ContextActivity<C> {
    type Target = bool;

    fn deref(&self) -> (r: &bool)
        ensures
            *r == self@,
    {
        &self.active
    }
}

/// Determines the evaluation order of the input context `C` on the entity.
///
/// Within the same schedule, contexts with a higher priority are evaluated first.
pub struct ContextPriority<C> {
    value: usize,
    marker: PhantomData<C>,
}

impl<C> View for ContextPriority<C> {
    type V = usize;

    /// The priority value.
    closed spec fn view(&self) -> usize {
        self.value
    }
}

impl<C> ContextPriority<C> {
    /// Creates a new instance with the given value.
    pub fn new(value: usize) -> (r: Self)
        ensures
            r@ == value,
    {
        Self { value, marker: PhantomData }
    }

    /// The priority value.
    pub fn value(&self) -> (r: usize)
        ensures
            r == self@,
    {
        self.value
    }
}

impl<C> core::ops::Deref for ContextPriority<C> {
    type Target = usize;

    fn deref(&self) -> (r: &usize)
        ensures
            *r == self@,
    {
        &self.value
    }
}

impl<C> Default for ContextPriority<C> {
    fn default() -> (r: Self)
        ensures
            r@ == 0,
    {
        Self::new(0)
    }
}

impl<C> Clone for ContextPriority<C> {
    fn clone(&self) -> (r: Self)
        ensures
            r == *self,
    {
        *self
    }
}

impl<C> Copy for ContextPriority<C> {

}

/// Associated gamepad for all input contexts on this entity.
///
/// If not present, input will be read from all connected gamepads.
#[derive(Debug, Clone, Copy, PartialEq, Eq, Hash)]
pub enum GamepadDevice {
    /// Matches input from any gamepad.
    Any,
    /// Matches input from specific gamepad.
    Single(Entity),
    /// Ignores all gamepad input.
    NoDevice,
}

impl Default for GamepadDevice {
    fn default() -> (r: Self)
        ensures
            r == GamepadDevice::Any,
    {
        GamepadDevice::Any
    }
}

impl From<Entity> for GamepadDevice {
    fn from(value: Entity) -> (r: Self)
        ensures
            r == GamepadDevice::Single(value),
    {
        GamepadDevice::Single(value)
    }
}

impl vstd::std_specs::convert::FromSpecImpl<Entity> for GamepadDevice {
    open spec fn obeys_from_spec() -> bool {
        true
    }

    open spec fn from_spec(v: Entity) -> GamepadDevice {
        GamepadDevice::Single(v)
    }
}

impl From<Option<Entity>> for GamepadDevice {
    fn from(value: Option<Entity>) -> (r: Self)
        ensures
            r == (match value {
                Some(entity) => GamepadDevice::Single(entity),
                None => GamepadDevice::NoDevice,
            }),
    {
        match value {
            Some(entity) => GamepadDevice::Single(entity),
            None => GamepadDevice::NoDevice,
        }
    }
}

impl vstd::std_specs::convert::FromSpecImpl<Option<Entity>> for GamepadDevice {
    open spec fn obeys_from_spec() -> bool {
        true
    }

    open spec fn from_spec(v: Option<Entity>) -> GamepadDevice {
        match v {
            Some(entity) => GamepadDevice::Single(entity),
            None => GamepadDevice::NoDevice,
        }
    }
}

} // verus!
