use agb::input::{Button, ButtonController, ButtonState, Tri};
use agb::number::vec2;

#[test]
fn test_tri_bool_tuple_from_impl() {
    assert_eq!(Tri::from((true, false)), Tri::Negative);
    assert_eq!(Tri::from((false, true)), Tri::Positive);
    assert_eq!(Tri::from((false, false)), Tri::Zero);
    assert_eq!(Tri::from((true, true)), Tri::Zero);
}

#[test]
fn test_button_state_is_pressed() {
    assert!(ButtonState::from(Button::A).is_pressed(Button::A));
    assert!(Button::A.or(Button::B).is_pressed(Button::A));
    assert!(!Button::A.or(Button::B).is_pressed(Button::START));
}

#[test]
fn test_button_state_is_released() {
    assert!(ButtonState::from(Button::A).is_released(Button::B));
    assert!(!ButtonState::from(Button::B).is_released(Button::B));
}

#[test]
fn test_button_controller_is_just_pressed() {
    let mut controller = ButtonController::new(ButtonState::empty());
    controller.update_with_state(ButtonState::from(Button::B));
    controller.update_with_state(ButtonState::from(Button::A));
    assert!(controller.is_just_pressed(ButtonState::from(Button::A)));
    assert!(controller.is_just_released(ButtonState::from(Button::B)));
    assert!(!controller.is_just_pressed(ButtonState::from(Button::START)));
    assert!(!controller.is_just_released(ButtonState::from(Button::SELECT)));
}

#[test]
fn test_button_controller_tri() {
    let mut controller = ButtonController::new(ButtonState::empty());
    controller.update_with_state(Button::L.or(Button::RIGHT));
    assert_eq!(controller.lr_tri(), Tri::Negative);
    assert_eq!(controller.x_tri(), Tri::Positive);
    assert_eq!(controller.y_tri(), Tri::Zero);
}

#[test]
fn test_button_state_all() {
    assert!(ButtonState::all().is_pressed(Button::A));
    assert!(ButtonState::all().is_pressed(Button::L));
}

#[test]
fn test_just_pressed_multiple() {
    let mut controller = ButtonController::new(ButtonState::empty());
    controller.update_with_state(ButtonState::empty());
    controller.update_with_state(Button::A.or(Button::B));
    assert!(controller.is_just_pressed(Button::A.or(Button::START)));
    controller.update_with_state(ButtonState::from(Button::A));
    assert!(!controller.is_just_pressed(Button::A.or(Button::START)));
    assert!(controller.is_just_released(Button::B.or(Button::SELECT)));
}

#[test]
fn update_reads_the_key_register() {
    let mut controller = ButtonController::new(ButtonState::empty());
    // a clear bit is a pressed button: A is bit 0
    controller.update(0xffff & !1);
    assert!(controller.is_pressed(ButtonState::from(Button::A)));
    assert!(controller.is_just_pressed(ButtonState::from(Button::A)));
    assert!(controller.is_released(ButtonState::from(Button::B)));
    controller.update(0xffff);
    assert!(controller.is_just_released(ButtonState::from(Button::A)));
}

#[test]
fn vectors_follow_the_d_pad() {
    let mut controller = ButtonController::new(ButtonState::empty());
    controller.update_with_state(Button::LEFT.or(Button::DOWN));
    assert_eq!(controller.vector(), vec2(-1, 1));
    assert_eq!(controller.just_pressed_vector(), vec2(-1, 1));
    controller.update_with_state(Button::LEFT.or(Button::DOWN));
    assert_eq!(controller.just_pressed_vector(), vec2(0, 0));
    assert_eq!(controller.just_pressed_x_tri(), Tri::Zero);
}

#[test]
fn a_button_is_never_just_pressed_and_just_released() {
    let mut controller = ButtonController::new(ButtonState::empty());
    for step in 0..64u16 {
        controller.update_with_state(ButtonState::from_bits(step.wrapping_mul(37)));
        for b in [Button::A, Button::B, Button::L, Button::R, Button::UP] {
            let s = ButtonState::from(b);
            assert!(!(controller.is_just_pressed(s) && controller.is_just_released(s)));
        }
    }
}
