use bevy::ecs::entity::Entity;
use bevy_enhanced_input::context::{ContextActivity, ContextPriority, GamepadDevice};

struct OnFoot;

#[test]
fn activity_new_keeps_value() {
    assert!(ContextActivity::<OnFoot>::new(true).is_active());
    assert!(!ContextActivity::<OnFoot>::new(false).is_active());
}

#[test]
fn activity_constants() {
    assert!(ContextActivity::<OnFoot>::active().is_active());
    assert!(!ContextActivity::<OnFoot>::inactive().is_active());
}

#[test]
fn activity_default_is_active() {
    let activity: ContextActivity<OnFoot> = Default::default();
    assert!(*activity);
}

#[test]
fn activity_toggled_inverts() {
    assert!(!ContextActivity::<OnFoot>::active().toggled().is_active());
    assert!(ContextActivity::<OnFoot>::inactive().toggled().is_active());
}

#[test]
fn activity_toggled_twice_is_unchanged() {
    for value in [false, true] {
        let activity = ContextActivity::<OnFoot>::new(value);
        assert_eq!(activity.toggled().toggled().is_active(), value);
    }
}

#[test]
fn activity_clone_and_deref() {
    let activity = ContextActivity::<OnFoot>::inactive();
    let copy = activity.clone();
    assert_eq!(*copy, false);
    assert_eq!(*activity, false);
}

#[test]
fn priority_new_and_value() {
    let priority = ContextPriority::<OnFoot>::new(7);
    assert_eq!(priority.value(), 7);
    assert_eq!(*priority, 7);
    assert_eq!(*priority.clone(), 7);
}

#[test]
fn priority_default_is_zero() {
    let priority: ContextPriority<OnFoot> = Default::default();
    assert_eq!(*priority, 0);
}

#[test]
fn gamepad_default_is_any() {
    assert_eq!(GamepadDevice::default(), GamepadDevice::Any);
}

#[test]
fn gamepad_from_entity() {
    let entity = Entity::from_raw_u32(3).unwrap();
    assert_eq!(GamepadDevice::from(entity), GamepadDevice::Single(entity));
}

#[test]
fn gamepad_from_option() {
    let entity = Entity::from_raw_u32(4).unwrap();
    assert_eq!(GamepadDevice::from(Some(entity)), GamepadDevice::Single(entity));
    assert_eq!(GamepadDevice::from(None::<Entity>), GamepadDevice::NoDevice);
}
