use renderer::app::{
    fixed_update_steps, frame_size, surface_action, surface_configurable, InputEvent, InputState,
    SurfaceAction, SurfaceStatus, MOUSE_BUTTON_LEFT,
};

#[test]
fn input_press_and_release_keys() {
    let mut input = InputState::new();
    input.press_key(3);
    assert!(input.key_pressed(3));
    assert!(!input.key_released(3));
    assert!(input.key_just_pressed(3));
    assert!(!input.key_just_released(3));
    assert!(input.key_released(4));
    input.begin_frame();
    assert!(input.key_pressed(3));
    assert!(!input.key_just_pressed(3));
    input.release_key(3);
    assert!(input.key_released(3));
    assert!(input.key_just_released(3));
}

#[test]
fn input_press_and_release_in_one_frame() {
    let mut input = InputState::new();
    input.apply(InputEvent::MouseButtonPressed(MOUSE_BUTTON_LEFT));
    input.apply(InputEvent::MouseButtonReleased(MOUSE_BUTTON_LEFT));
    assert!(input.mouse_button_released(MOUSE_BUTTON_LEFT));
    assert!(!input.mouse_button_pressed(MOUSE_BUTTON_LEFT));
    assert!(input.mouse_button_just_pressed(MOUSE_BUTTON_LEFT));
    assert!(input.mouse_button_just_released(MOUSE_BUTTON_LEFT));
    input.begin_frame();
    assert!(!input.mouse_button_just_pressed(MOUSE_BUTTON_LEFT));
    assert!(!input.mouse_button_just_released(MOUSE_BUTTON_LEFT));
}

#[test]
fn fixed_updates_follow_accumulated_time() {
    let interval = 15_625_000u128;
    let r = fixed_update_steps(10_000_000, 30_000_000, interval, 64);
    assert_eq!(r.steps, 2);
    assert_eq!(r.fixed_time, 40_000_000 - 2 * interval);
    assert!(r.skipped.is_none());
    let r = fixed_update_steps(0, 1_000_000, interval, 64);
    assert_eq!(r.steps, 0);
    assert_eq!(r.fixed_time, 1_000_000);
}

#[test]
fn fixed_updates_give_up_when_far_behind() {
    let r = fixed_update_steps(0, 10, 2, 3);
    assert_eq!(r.steps, 3);
    assert_eq!(r.fixed_time, 0);
    assert_eq!(r.skipped, Some(4));
    let r = fixed_update_steps(0, 6, 2, 3);
    assert_eq!(r.steps, 3);
    assert_eq!(r.skipped, Some(0));
}

#[test]
fn surface_answers_decide_the_frame() {
    assert!(matches!(surface_action(SurfaceStatus::Success), SurfaceAction::Render { resize_after: false }));
    assert!(matches!(surface_action(SurfaceStatus::Suboptimal), SurfaceAction::Render { resize_after: true }));
    assert!(matches!(surface_action(SurfaceStatus::Timeout), SurfaceAction::Skip));
    assert!(matches!(surface_action(SurfaceStatus::Occluded), SurfaceAction::Skip));
    assert!(matches!(surface_action(SurfaceStatus::Outdated), SurfaceAction::Resize));
    assert!(matches!(surface_action(SurfaceStatus::Lost), SurfaceAction::Resize));
    assert!(matches!(surface_action(SurfaceStatus::Validation), SurfaceAction::ReportValidation));
}

#[test]
fn surface_sizes() {
    assert!(surface_configurable(640, 480));
    assert!(!surface_configurable(0, 480));
    assert!(!surface_configurable(640, 0));
    assert_eq!(frame_size(Some((640, 0))), (640, 1));
    assert_eq!(frame_size(None), (1, 1));
}
