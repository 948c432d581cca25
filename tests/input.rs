use bronze::input::{InputEvent, InputManager, Keyboard, Mouse, BUTTON_COUNT, KEY_COUNT};

#[test]
fn new_devices_are_idle() {
    let k = Keyboard::new();
    for key in 0..KEY_COUNT {
        assert!(k.key_up(key));
        assert!(!k.key_pressed(key));
    }
    let m = Mouse::new();
    assert_eq!(m.position(), (0, 0));
    assert_eq!((m.x(), m.y()), (0, 0));
    for b in 0..BUTTON_COUNT {
        assert!(m.button_up(b));
    }
}

#[test]
fn key_press_and_release_across_frames() {
    let mut input = InputManager::new();
    input.propagate(&InputEvent::KeyPressed(57));
    assert!(input.key_down(57));
    assert!(input.key_pressed(57));
    assert!(!input.key_released(57));
    input.update();
    assert!(input.key_down(57));
    assert!(!input.key_pressed(57));
    input.propagate(&InputEvent::KeyReleased(57));
    assert!(input.key_up(57));
    assert!(input.key_released(57));
    input.update();
    assert!(!input.key_released(57));
    assert!(input.key_up(3));
}

#[test]
fn unknown_codes_are_ignored() {
    let mut input = InputManager::new();
    input.propagate(&InputEvent::KeyPressed(KEY_COUNT));
    input.propagate(&InputEvent::MouseButtonPressed(BUTTON_COUNT));
    input.propagate(&InputEvent::Other);
    for key in 0..KEY_COUNT {
        assert!(input.key_up(key));
    }
    for b in 0..BUTTON_COUNT {
        assert!(input.button_up(b));
    }
}

#[test]
fn mouse_buttons_and_movement() {
    let mut input = InputManager::new();
    input.propagate(&InputEvent::MouseMoved { x: 320, y: -4 });
    input.propagate(&InputEvent::MouseButtonPressed(1));
    assert_eq!(input.mouse.position(), (320, -4));
    assert!(input.button_down(1));
    assert!(input.button_pressed(1));
    assert!(input.button_up(0));
    input.update();
    assert!(!input.button_pressed(1));
    input.propagate(&InputEvent::MouseButtonReleased(1));
    assert!(input.button_released(1));
    assert!(input.keyboard.key_up(1));
    assert_eq!(input.mouse.x(), 320);
}

#[test]
fn keyboard_alone() {
    let mut k = Keyboard::new();
    k.propagate(&InputEvent::KeyPressed(0));
    k.propagate(&InputEvent::MouseMoved { x: 1, y: 1 });
    assert!(k.key_down(0));
    assert!(k.key_pressed(0));
    assert!(k.keys[0]);
    k.propagate(&InputEvent::KeyReleased(0));
    assert!(!k.key_released(0));
    let mut m = Mouse::new();
    m.propagate(&InputEvent::MouseButtonPressed(4));
    assert!(m.button_down(4));
    assert!(m.button_pressed(4));
    m.propagate(&InputEvent::KeyPressed(4));
    assert!(!m.button_released(4));
}
