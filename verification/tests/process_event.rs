use playform::process_event::{key_press, key_release, mouse_move, process_event, InputAction, InputEvent, Key};

#[test]
fn keys_walk_jump_and_turn() {
    assert_eq!(key_press(Key::A), Some(InputAction::Walk(-1, 0, 0)));
    assert_eq!(key_press(Key::D), Some(InputAction::Walk(1, 0, 0)));
    assert_eq!(key_press(Key::W), Some(InputAction::Walk(0, 0, -1)));
    assert_eq!(key_press(Key::S), Some(InputAction::Walk(0, 0, 1)));
    assert_eq!(key_press(Key::Space), Some(InputAction::StartJump));
    assert_eq!(key_press(Key::Left), Some(InputAction::Rotate(1, 0)));
    assert_eq!(key_press(Key::Right), Some(InputAction::Rotate(-1, 0)));
    assert_eq!(key_press(Key::Up), Some(InputAction::Rotate(0, 1)));
    assert_eq!(key_press(Key::Down), Some(InputAction::Rotate(0, -1)));
    assert_eq!(key_press(Key::Other), None);
}

#[test]
fn releases_negate_walking() {
    for key in [Key::A, Key::D, Key::W, Key::S] {
        match (key_press(key), key_release(key)) {
            (Some(InputAction::Walk(a, b, c)), Some(InputAction::Walk(x, y, z))) => {
                assert_eq!((a + x, b + y, c + z), (0, 0, 0));
            }
            _ => panic!("walking keys walk"),
        }
    }
    assert_eq!(key_release(Key::Space), Some(InputAction::StopJump));
    assert_eq!(key_release(Key::Left), None);
    assert_eq!(key_release(Key::Up), None);
    assert_eq!(key_release(Key::Other), None);
}

#[test]
fn mouse_turns_by_its_offset_from_the_centre() {
    assert_eq!(mouse_move(400, 300), InputAction::Look(0, 0));
    assert_eq!(mouse_move(410, 290), InputAction::Look(10, 10));
    assert_eq!(mouse_move(0, 600), InputAction::Look(-400, -300));
}

#[test]
fn repeats_and_other_events_ask_nothing() {
    assert_eq!(process_event(InputEvent::KeyDown { key: Key::A, repeat: true }), None);
    assert_eq!(process_event(InputEvent::KeyDown { key: Key::A, repeat: false }), Some(InputAction::Walk(-1, 0, 0)));
    assert_eq!(process_event(InputEvent::KeyUp { key: Key::A, repeat: false }), Some(InputAction::Walk(1, 0, 0)));
    assert_eq!(process_event(InputEvent::KeyUp { key: Key::Space, repeat: true }), None);
    assert_eq!(process_event(InputEvent::MouseMotion { x: 401, y: 301 }), Some(InputAction::Look(1, -1)));
    assert_eq!(process_event(InputEvent::Other), None);
}

#[test]
fn marker_and_toggle_keys() {
    assert_eq!(key_press(Key::M), Some(InputAction::MarkLineOfSight));
    assert_eq!(key_press(Key::O), Some(InputAction::ToggleOctree));
    assert_eq!(key_press(Key::L), Some(InputAction::ToggleOutlines));
    assert_eq!(key_release(Key::M), None);
    assert_eq!(key_release(Key::O), None);
    assert_eq!(key_release(Key::L), None);
    assert_eq!(process_event(InputEvent::KeyDown { key: Key::O, repeat: false }), Some(InputAction::ToggleOctree));
}
