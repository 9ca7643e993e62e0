use webgl_renderer::input::{KeyEvent, KeyState};
use webgl_renderer::movement::{KeyBindings, Motion};

#[test]
fn key_state_starts_empty() {
    let s = KeyState::new();
    assert!(!s.is_pressed("KeyW"));
}

#[test]
fn pressed_key_reads_back_and_release_clears_it() {
    let mut s = KeyState::new();
    s.set_pressed("KeyW");
    assert!(s.is_pressed("KeyW"));
    assert!(!s.is_pressed("KeyS"));
    s.set_released("KeyW");
    assert!(!s.is_pressed("KeyW"));
}

#[test]
fn pressing_twice_needs_one_release() {
    let mut s = KeyState::new();
    s.set_pressed("KeyA");
    s.set_pressed("KeyA");
    s.set_released("KeyA");
    assert!(!s.is_pressed("KeyA"));
}

#[test]
fn events_apply_in_order() {
    let mut s = KeyState::new();
    s.process_events(vec![
        KeyEvent::Down(String::from("KeyW")),
        KeyEvent::Down(String::from("KeyD")),
        KeyEvent::Up(String::from("KeyW")),
        KeyEvent::Down(String::from("KeyQ")),
    ]);
    assert!(!s.is_pressed("KeyW"));
    assert!(s.is_pressed("KeyD"));
    assert!(s.is_pressed("KeyQ"));
    s.apply(KeyEvent::Up(String::from("KeyD")));
    assert!(!s.is_pressed("KeyD"));
}

#[test]
fn default_bindings_and_motions() {
    let b = KeyBindings::default();
    assert_eq!(b.key_move_forwards.as_deref(), Some("KeyW"));
    assert_eq!(b.key_turn_left.as_deref(), Some("KeyQ"));
    assert_eq!(b.key_turn_right.as_deref(), Some("KeyE"));
    let mut s = KeyState::new();
    s.set_pressed("KeyG");
    s.set_pressed("KeyW");
    s.set_pressed("KeyE");
    s.set_pressed("KeyX");
    assert_eq!(b.motions(&s), vec![Motion::MoveForwards, Motion::TurnRight, Motion::LookDown]);
}

#[test]
fn unbound_keys_never_move() {
    let mut b = KeyBindings::default();
    b.key_move_forwards = None;
    let mut s = KeyState::new();
    s.set_pressed("KeyW");
    assert!(!KeyBindings::is_key_pressed(&b.key_move_forwards, &s));
    assert!(b.motions(&s).is_empty());
}
