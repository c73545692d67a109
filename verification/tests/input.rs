use engine::input::button::{Button, ControllerAxisDirection};
use engine::input::mapping::RegularInputMapping;
use engine::input::system::{ButtonState, InputEvent, InputSystem};

// Scancodes and mouse buttons as the window system numbers them.
const SCANCODE_A: usize = 4;
const SCANCODE_B: usize = 5;
const MOUSE_LEFT: usize = 1;
const MOUSE_RIGHT: usize = 3;

#[test]
fn test_button_keys() {
    let mut button = Button::new();

    assert_eq!(button.keys().len(), 0);

    button.add_key(SCANCODE_A);

    assert_eq!(button.keys().len(), 1);

    button.rem_key(SCANCODE_A);

    assert_eq!(button.keys().len(), 0);

    button.add_key(SCANCODE_A);
    button.add_key(SCANCODE_B);
    button.rem_key(SCANCODE_A);

    assert_eq!(button.keys().len(), 1);
}

#[test]
fn test_button_mouse_buttons() {
    let mut button = Button::new();

    assert_eq!(button.mouse_buttons().len(), 0);

    button.add_mouse_button(MOUSE_LEFT);

    assert_eq!(button.mouse_buttons().len(), 1);

    button.rem_mouse_button(MOUSE_LEFT);

    assert_eq!(button.mouse_buttons().len(), 0);

    button.add_mouse_button(MOUSE_LEFT);
    button.add_mouse_button(MOUSE_RIGHT);
    button.rem_mouse_button(MOUSE_LEFT);

    assert_eq!(button.mouse_buttons().len(), 1);
}

#[test]
fn rem_key_keeps_the_others_in_order() {
    let mut button = Button::new();
    button.add_key(7);
    button.add_key(8);
    button.add_key(9);
    button.rem_key(8);
    assert_eq!(button.keys(), &vec![7, 9]);
    button.rem_key(42);
    assert_eq!(button.keys(), &vec![7, 9]);
}

#[test]
fn button_with_two_keys_is_down_while_any_is_down() {
    let mut input = InputSystem::new();
    let mut button = Button::new();
    button.add_key(SCANCODE_A);
    button.add_key(SCANCODE_B);

    // A down at 10: pressed and down.
    input.handle_input(InputEvent::KeyDown { scancode: SCANCODE_A, repeat: false }, 10);
    button.update(&input, 10, &[]);
    assert!(button.down() && button.pressed() && !button.released());
    assert!(button.pressed_for(5, 15));
    assert!(!button.pressed_for(6, 15));

    // B down at 20: still down, no second press.
    input.handle_input(InputEvent::KeyDown { scancode: SCANCODE_B, repeat: false }, 20);
    button.update(&input, 20, &[]);
    assert!(button.down() && !button.pressed());

    // A up at 30: still down.
    input.handle_input(InputEvent::KeyUp { scancode: SCANCODE_A, repeat: false }, 30);
    button.update(&input, 30, &[]);
    assert!(button.down() && !button.pressed() && !button.released());

    // B up at 40: released.
    input.handle_input(InputEvent::KeyUp { scancode: SCANCODE_B, repeat: false }, 40);
    button.update(&input, 40, &[]);
    assert!(!button.down() && !button.pressed() && button.released());
    assert!(button.released_for(10, 50));

    // The next update reports no new release.
    button.update(&input, 50, &[]);
    assert!(!button.released());
}

#[test]
fn repeated_key_events_change_nothing() {
    let mut input = InputSystem::new();
    input.handle_input(InputEvent::KeyDown { scancode: SCANCODE_A, repeat: false }, 3);
    input.handle_input(InputEvent::KeyDown { scancode: SCANCODE_A, repeat: true }, 9);
    assert_eq!(input.key_state(SCANCODE_A), ButtonState { timestamp: 3, down: true });
}

#[test]
fn controller_button_counts_only_while_connected() {
    let mut input = InputSystem::new();
    let mut button = Button::new();
    button.add_controller_button(0, 11);

    input.handle_input(InputEvent::ControllerDeviceAdded { index: 0, id: 77 }, 1);
    input.handle_input(InputEvent::ControllerButtonDown { id: 77, button: 11 }, 5);
    button.update(&input, 5, &[]);
    assert!(button.down() && button.pressed());

    input.handle_input(InputEvent::ControllerDeviceRemoved { id: 77 }, 8);
    assert!(input.controller_state(0).is_none());
    button.update(&input, 8, &[]);
    assert!(!button.down());
}

#[test]
fn controller_axis_presses_on_crossing() {
    let mut input = InputSystem::new();
    let mut button = Button::new();
    button.add_controller_axis(0, 1, ControllerAxisDirection::GreaterThan);
    input.handle_input(InputEvent::ControllerDeviceAdded { index: 0, id: 3 }, 1);
    input.handle_input(InputEvent::ControllerAxisMotion { id: 3, axis: 1, value: 30000 }, 4);
    assert_eq!(input.controller_state(0).unwrap().axis_state(1).value, 30000);

    button.update(&input, 4, &[true]);
    assert!(button.down() && button.pressed());
    button.update(&input, 5, &[true]);
    assert!(button.down() && !button.pressed());
    button.update(&input, 6, &[false]);
    assert!(!button.down() && button.released());
}

#[test]
fn pressed_repeat_fires_after_delay_then_every_interval() {
    let mut input = InputSystem::new();
    let mut button = Button::new();
    button.add_key(SCANCODE_A);
    input.handle_input(InputEvent::KeyDown { scancode: SCANCODE_A, repeat: false }, 100);
    button.update(&input, 100, &[]);
    // On the press itself.
    assert!(button.pressed_repeat_with_delay(50, 10, 100, 5));
    button.update(&input, 105, &[]);
    // Frames of 5 ending at 105 .. 150: first repeat in the frame ending at 150.
    assert!(!button.pressed_repeat_with_delay(50, 10, 145, 5));
    assert!(button.pressed_repeat_with_delay(50, 10, 150, 5));
    assert!(!button.pressed_repeat_with_delay(50, 10, 155, 5));
    assert!(button.pressed_repeat_with_delay(50, 10, 160, 5));
    // With the delay equal to the interval.
    assert!(button.pressed_repeat(10, 110, 5));
    assert!(!button.pressed_repeat(10, 115, 5));
}

#[test]
fn mapping_finds_buttons_by_name() {
    let mut mapping = RegularInputMapping::new();
    let mut up = Button::new();
    up.add_key(SCANCODE_A);
    mapping.add_button_mapping("UP".to_string(), up);
    mapping.add_button_mapping("DOWN".to_string(), Button::new());
    assert!(mapping.contains(&"UP".to_string()));
    assert!(!mapping.contains(&"LEFT".to_string()));
    assert_eq!(mapping.button(&"UP".to_string()).keys(), &vec![SCANCODE_A]);

    let mut input = InputSystem::new();
    input.handle_input(InputEvent::KeyDown { scancode: SCANCODE_A, repeat: false }, 7);
    mapping.update(&input, 7, &vec![vec![], vec![]]);
    assert!(mapping.button(&"UP".to_string()).pressed());
    assert!(!mapping.button(&"DOWN".to_string()).down());
}

#[test]
fn mouse_motion_moves_the_mouse() {
    let mut input = InputSystem::new();
    input.handle_input(InputEvent::MouseMotion { x: -4, y: 9 }, 1);
    assert_eq!(input.mouse_pos(), (-4, 9));
    input.handle_input(InputEvent::MouseButtonDown { button: MOUSE_LEFT }, 2);
    assert_eq!(input.mouse_button_state(MOUSE_LEFT), ButtonState { timestamp: 2, down: true });
}
