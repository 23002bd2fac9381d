use gloom_rs::controls::{camera_actions, key_action, CameraAction, MOVE_SPEED, TURN_SPEED};
use gloom_rs::events::{handle_event, viewport_extent, Flow, InputEvent, WindowSize, INITIAL_SCREEN_H, INITIAL_SCREEN_W};
use gloom_rs::input::{Key, PressedKeys};

#[test]
fn press_adds_once() {
    let mut k = PressedKeys::new();
    k.press(Key::W);
    k.press(Key::A);
    k.press(Key::W);
    assert_eq!(k.keys(), &[Key::W, Key::A]);
    assert!(k.contains(Key::A));
    assert!(!k.contains(Key::S));
}

#[test]
fn release_removes_and_keeps_order() {
    let mut k = PressedKeys::new();
    k.press(Key::W);
    k.press(Key::A);
    k.press(Key::Other(17));
    k.release(Key::A);
    assert_eq!(k.keys(), &[Key::W, Key::Other(17)]);
    k.release(Key::D);
    assert_eq!(k.keys(), &[Key::W, Key::Other(17)]);
}

#[test]
fn press_then_release_restores() {
    let mut k = PressedKeys::new();
    k.press(Key::Up);
    k.press(Key::Left);
    let before: Vec<Key> = k.keys().to_vec();
    k.press(Key::Space);
    k.release(Key::Space);
    assert_eq!(k.keys().to_vec(), before);
}

#[test]
fn other_keys_are_told_apart() {
    let mut k = PressedKeys::new();
    k.press(Key::Other(3));
    k.press(Key::Other(4));
    k.release(Key::Other(3));
    assert_eq!(k.keys(), &[Key::Other(4)]);
}

#[test]
fn key_actions_follow_the_controls() {
    assert_eq!(key_action(Key::D), Some(CameraAction::Move { axis: 0, positive: false, speed: 30 }));
    assert_eq!(key_action(Key::A), Some(CameraAction::Move { axis: 0, positive: true, speed: 30 }));
    assert_eq!(key_action(Key::Space), Some(CameraAction::Move { axis: 1, positive: false, speed: 30 }));
    assert_eq!(key_action(Key::LShift), Some(CameraAction::Move { axis: 1, positive: true, speed: 30 }));
    assert_eq!(key_action(Key::S), Some(CameraAction::Move { axis: 2, positive: false, speed: 30 }));
    assert_eq!(key_action(Key::W), Some(CameraAction::Move { axis: 2, positive: true, speed: 30 }));
    assert_eq!(key_action(Key::Right), Some(CameraAction::Turn { axis: 1, positive: true, speed: 1 }));
    assert_eq!(key_action(Key::Left), Some(CameraAction::Turn { axis: 1, positive: false, speed: 1 }));
    assert_eq!(key_action(Key::Up), Some(CameraAction::Turn { axis: 0, positive: true, speed: 1 }));
    assert_eq!(key_action(Key::Down), Some(CameraAction::Turn { axis: 0, positive: false, speed: 1 }));
    assert_eq!(key_action(Key::Escape), None);
    assert_eq!(key_action(Key::Other(5)), None);
    assert_eq!(MOVE_SPEED, 30);
    assert_eq!(TURN_SPEED, 1);
}

#[test]
fn actions_of_held_keys_in_order() {
    let keys = [Key::W, Key::Escape, Key::Left, Key::Other(9)];
    assert_eq!(
        camera_actions(&keys),
        vec![
            CameraAction::Move { axis: 2, positive: true, speed: 30 },
            CameraAction::Turn { axis: 1, positive: false, speed: 1 },
        ]
    );
    assert_eq!(camera_actions(&[]), vec![]);
}

#[test]
fn resize_is_taken_once() {
    let mut s = WindowSize::new(INITIAL_SCREEN_W, INITIAL_SCREEN_H);
    assert_eq!(s.take_resize(), None);
    s.record_resize(1024, 768);
    s.record_resize(1280, 720);
    assert_eq!(s.take_resize(), Some((1280, 720)));
    assert_eq!(s.take_resize(), None);
    assert_eq!((s.width, s.height, s.resized), (1280, 720, false));
}

#[test]
fn viewport_extent_converts() {
    assert_eq!(viewport_extent(800, 600), (800, 600));
    assert_eq!(viewport_extent(u32::MAX, 1), (-1, 1));
}

#[test]
fn events_update_state_and_flow() {
    let mut keys = PressedKeys::new();
    let mut size = WindowSize::new(800, 600);
    assert_eq!(handle_event(&mut keys, &mut size, true, InputEvent::Other), Flow::Wait);
    assert_eq!(
        handle_event(&mut keys, &mut size, true, InputEvent::Resized { width: 640, height: 480 }),
        Flow::Wait
    );
    assert_eq!(size, WindowSize { width: 640, height: 480, resized: true });
    assert_eq!(
        handle_event(&mut keys, &mut size, true, InputEvent::Keyboard { key: Key::W, pressed: true }),
        Flow::Wait
    );
    assert_eq!(keys.keys(), &[Key::W]);
    assert_eq!(
        handle_event(&mut keys, &mut size, true, InputEvent::Keyboard { key: Key::W, pressed: false }),
        Flow::Wait
    );
    assert_eq!(keys.keys(), &[] as &[Key]);
    assert_eq!(handle_event(&mut keys, &mut size, true, InputEvent::CloseRequested), Flow::Exit);
}

#[test]
fn escape_exits_on_press_and_release() {
    let mut keys = PressedKeys::new();
    let mut size = WindowSize::new(800, 600);
    assert_eq!(
        handle_event(&mut keys, &mut size, true, InputEvent::Keyboard { key: Key::Escape, pressed: true }),
        Flow::Exit
    );
    assert_eq!(keys.keys(), &[Key::Escape]);
    assert_eq!(
        handle_event(&mut keys, &mut size, true, InputEvent::Keyboard { key: Key::Escape, pressed: false }),
        Flow::Exit
    );
}

#[test]
fn stopped_renderer_exits_but_state_still_updates() {
    let mut keys = PressedKeys::new();
    let mut size = WindowSize::new(800, 600);
    assert_eq!(
        handle_event(&mut keys, &mut size, false, InputEvent::Resized { width: 10, height: 20 }),
        Flow::Exit
    );
    assert_eq!(size, WindowSize { width: 10, height: 20, resized: true });
}
