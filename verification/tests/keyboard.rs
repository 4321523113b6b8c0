use age::os::{KeyCode, KeyLocation, Keyboard, LogicalKey, ScanCode};

#[test]
fn keyboard_defaults() {
    let k = Keyboard::new();

    assert!(!k.key_pressed('q'));
    assert!(!k.key_held('q'));
    assert!(!k.key_released('q'));

    assert!(!k.key_pressed(KeyCode::Space));
    assert!(!k.key_held(KeyCode::Space));
    assert!(!k.key_released(KeyCode::Space));

    assert!(!k.key_pressed((KeyCode::Alt, KeyLocation::Left)));
    assert!(!k.key_held((KeyCode::Alt, KeyLocation::Left)));
    assert!(!k.key_released((KeyCode::Alt, KeyLocation::Left)));

    assert!(!k.key_pressed(ScanCode::Q));
    assert!(!k.key_held(ScanCode::Q));
    assert!(!k.key_released(ScanCode::Q));

    assert!(!k.alt_key());
    assert!(!k.control_key());
    assert!(!k.shift_key());
    assert!(!k.super_key());
}

#[test]
fn keyboard_q_key() {
    let mut k = Keyboard::new();

    assert!(!k.key_pressed('q'));
    assert!(!k.key_held('q'));
    assert!(!k.key_released('q'));

    assert!(!k.key_pressed(ScanCode::Q));
    assert!(!k.key_held(ScanCode::Q));
    assert!(!k.key_released(ScanCode::Q));

    k.on_keyboard_input(
        Some(ScanCode::Q),
        LogicalKey::Character('q'),
        KeyLocation::Standard,
        true,
        false,
    );

    assert!(k.key_pressed('q'));
    assert!(!k.key_held('q'));
    assert!(!k.key_released('q'));

    assert!(k.key_pressed(ScanCode::Q));
    assert!(!k.key_held(ScanCode::Q));
    assert!(!k.key_released(ScanCode::Q));

    k.flush();

    assert!(!k.key_pressed('q'));
    assert!(k.key_held('q'));
    assert!(!k.key_released('q'));

    assert!(!k.key_pressed(ScanCode::Q));
    assert!(k.key_held(ScanCode::Q));
    assert!(!k.key_released(ScanCode::Q));

    k.flush();
    k.on_keyboard_input(
        Some(ScanCode::Q),
        LogicalKey::Character('q'),
        KeyLocation::Standard,
        true,
        true,
    );

    assert!(!k.key_pressed('q'));
    assert!(k.key_held('q'));
    assert!(!k.key_pressed('q'));

    assert!(!k.key_pressed(ScanCode::Q));
    assert!(k.key_held(ScanCode::Q));
    assert!(!k.key_released(ScanCode::Q));

    k.flush();
    k.on_keyboard_input(
        Some(ScanCode::Q),
        LogicalKey::Character('q'),
        KeyLocation::Standard,
        false,
        false,
    );

    assert!(!k.key_pressed('q'));
    assert!(!k.key_held('q'));
    assert!(k.key_released('q'));

    assert!(!k.key_pressed(ScanCode::Q));
    assert!(!k.key_held(ScanCode::Q));
    assert!(k.key_released(ScanCode::Q));

    k.flush();

    assert!(!k.key_pressed('q'));
    assert!(!k.key_held('q'));
    assert!(!k.key_released('q'));

    assert!(!k.key_pressed(ScanCode::Q));
    assert!(!k.key_held(ScanCode::Q));
    assert!(!k.key_released(ScanCode::Q));
}

#[test]
fn keyboard_esc_key() {
    let mut k = Keyboard::new();

    k.on_keyboard_input(
        Some(ScanCode::Escape),
        LogicalKey::Named(KeyCode::Escape),
        KeyLocation::Standard,
        true,
        false,
    );

    assert!(k.key_pressed(KeyCode::Escape));
    assert!(!k.key_held(KeyCode::Escape));
    assert!(!k.key_released(KeyCode::Escape));

    assert!(k.key_pressed(ScanCode::Escape));
    assert!(!k.key_held(ScanCode::Escape));
    assert!(!k.key_released(ScanCode::Escape));

    k.flush();

    assert!(!k.key_pressed(KeyCode::Escape));
    assert!(k.key_held(KeyCode::Escape));
    assert!(!k.key_released(KeyCode::Escape));

    assert!(!k.key_pressed(ScanCode::Escape));
    assert!(k.key_held(ScanCode::Escape));
    assert!(!k.key_released(ScanCode::Escape));

    k.flush();
    k.on_keyboard_input(
        Some(ScanCode::Escape),
        LogicalKey::Named(KeyCode::Escape),
        KeyLocation::Standard,
        true,
        true,
    );

    assert!(!k.key_pressed(KeyCode::Escape));
    assert!(k.key_held(KeyCode::Escape));
    assert!(!k.key_released(KeyCode::Escape));

    assert!(!k.key_pressed(ScanCode::Escape));
    assert!(k.key_held(ScanCode::Escape));
    assert!(!k.key_released(ScanCode::Escape));

    k.flush();
    k.on_keyboard_input(
        Some(ScanCode::Escape),
        LogicalKey::Named(KeyCode::Escape),
        KeyLocation::Standard,
        false,
        false,
    );

    assert!(!k.key_pressed(KeyCode::Escape));
    assert!(!k.key_held(KeyCode::Escape));
    assert!(k.key_released(KeyCode::Escape));

    assert!(!k.key_pressed(ScanCode::Escape));
    assert!(!k.key_held(ScanCode::Escape));
    assert!(k.key_released(ScanCode::Escape));

    k.flush();

    assert!(!k.key_pressed(KeyCode::Escape));
    assert!(!k.key_held(KeyCode::Escape));
    assert!(!k.key_released(KeyCode::Escape));

    assert!(!k.key_pressed(ScanCode::Escape));
    assert!(!k.key_held(ScanCode::Escape));
    assert!(!k.key_released(ScanCode::Escape));
}

#[test]
fn keyboard_alt_key() {
    let mut k = Keyboard::new();

    assert!(!k.alt_key());

    k.on_keyboard_input(
        Some(ScanCode::AltLeft),
        LogicalKey::Named(KeyCode::Alt),
        KeyLocation::Left,
        true,
        false,
    );

    assert!(k.alt_key());

    k.flush();
    k.on_keyboard_input(
        Some(ScanCode::AltLeft),
        LogicalKey::Named(KeyCode::Alt),
        KeyLocation::Left,
        false,
        false,
    );

    assert!(!k.alt_key());

    k.flush();
    k.on_keyboard_input(
        Some(ScanCode::AltRight),
        LogicalKey::Named(KeyCode::Alt),
        KeyLocation::Right,
        true,
        false,
    );

    assert!(k.alt_key());

    k.flush();
    k.on_keyboard_input(
        Some(ScanCode::AltRight),
        LogicalKey::Named(KeyCode::Alt),
        KeyLocation::Right,
        false,
        false,
    );

    assert!(!k.alt_key());
}

#[test]
fn keyboard_control_key() {
    let mut k = Keyboard::new();

    assert!(!k.control_key());

    k.on_keyboard_input(
        Some(ScanCode::ControlLeft),
        LogicalKey::Named(KeyCode::Control),
        KeyLocation::Left,
        true,
        false,
    );

    assert!(k.control_key());

    k.flush();
    k.on_keyboard_input(
        Some(ScanCode::ControlLeft),
        LogicalKey::Named(KeyCode::Control),
        KeyLocation::Left,
        false,
        false,
    );

    assert!(!k.control_key());

    k.flush();
    k.on_keyboard_input(
        Some(ScanCode::ControlRight),
        LogicalKey::Named(KeyCode::Control),
        KeyLocation::Right,
        true,
        false,
    );

    assert!(k.control_key());

    k.flush();
    k.on_keyboard_input(
        Some(ScanCode::ControlRight),
        LogicalKey::Named(KeyCode::Control),
        KeyLocation::Right,
        false,
        false,
    );

    assert!(!k.control_key());
}

#[test]
fn keyboard_shift_key() {
    let mut k = Keyboard::new();

    assert!(!k.shift_key());

    k.on_keyboard_input(
        Some(ScanCode::ShiftLeft),
        LogicalKey::Named(KeyCode::Shift),
        KeyLocation::Left,
        true,
        false,
    );

    assert!(k.shift_key());

    k.flush();
    k.on_keyboard_input(
        Some(ScanCode::ShiftLeft),
        LogicalKey::Named(KeyCode::Shift),
        KeyLocation::Left,
        false,
        false,
    );

    assert!(!k.shift_key());

    k.flush();
    k.on_keyboard_input(
        Some(ScanCode::ShiftRight),
        LogicalKey::Named(KeyCode::Shift),
        KeyLocation::Right,
        true,
        false,
    );

    assert!(k.shift_key());

    k.flush();
    k.on_keyboard_input(
        Some(ScanCode::ShiftRight),
        LogicalKey::Named(KeyCode::Shift),
        KeyLocation::Right,
        false,
        false,
    );

    assert!(!k.shift_key());
}

#[test]
fn keyboard_super_key() {
    let mut k = Keyboard::new();

    assert!(!k.super_key());

    k.on_keyboard_input(
        Some(ScanCode::SuperLeft),
        LogicalKey::Named(KeyCode::Super),
        KeyLocation::Left,
        true,
        false,
    );

    assert!(k.super_key());

    k.flush();
    k.on_keyboard_input(
        Some(ScanCode::SuperLeft),
        LogicalKey::Named(KeyCode::Super),
        KeyLocation::Left,
        false,
        false,
    );

    assert!(!k.super_key());

    k.flush();
    k.on_keyboard_input(
        Some(ScanCode::SuperRight),
        LogicalKey::Named(KeyCode::Super),
        KeyLocation::Right,
        true,
        false,
    );

    assert!(k.super_key());

    k.flush();
    k.on_keyboard_input(
        Some(ScanCode::SuperRight),
        LogicalKey::Named(KeyCode::Super),
        KeyLocation::Right,
        false,
        false,
    );

    assert!(!k.super_key());
}

#[test]
fn keyboard_repeats_are_ignored() {
    let mut k = Keyboard::new();
    k.on_keyboard_input(Some(ScanCode::A), LogicalKey::Character('a'), KeyLocation::Standard, true, true);
    assert!(!k.key_pressed('a'));
    assert!(!k.key_pressed(ScanCode::A));
}

#[test]
fn keyboard_right_control_counts_for_alt_and_control() {
    // The modifier masks are 11 shifted by 0, 2, 4 and 6: right Control
    // (bit 3) lies in the Alt mask as well as the Control mask.
    let mut k = Keyboard::new();
    k.on_keyboard_input(Some(ScanCode::ControlRight), LogicalKey::Named(KeyCode::Control), KeyLocation::Right, true, false);
    assert!(k.control_key());
    assert!(k.alt_key());
    assert!(!k.shift_key());
    assert!(!k.super_key());
    assert!(k.key_pressed((KeyCode::Control, KeyLocation::Right)));
    assert!(!k.key_pressed(KeyCode::Control));
}

#[test]
fn keyboard_release_of_unpressed_key_changes_nothing() {
    let mut k = Keyboard::new();
    k.on_keyboard_input(None, LogicalKey::Character('x'), KeyLocation::Standard, false, false);
    assert!(!k.key_pressed('x') && !k.key_held('x') && !k.key_released('x'));
    k.on_keyboard_input(None, LogicalKey::Unidentified, KeyLocation::Standard, true, false);
    k.on_keyboard_input(None, LogicalKey::Dead, KeyLocation::Standard, true, false);
    assert!(!k.alt_key());
}

#[test]
fn keycode_of_logical_keys() {
    assert_eq!(KeyCode::try_from(LogicalKey::Character('z')).ok(), Some(KeyCode::Char('z')));
    assert_eq!(KeyCode::try_from(LogicalKey::Named(KeyCode::Escape)).ok(), Some(KeyCode::Escape));
    assert_eq!(
        KeyCode::try_from(LogicalKey::Unidentified).err().unwrap().to_string(),
        "unidentified keys are not supported"
    );
    assert_eq!(KeyCode::try_from(LogicalKey::Dead).err().unwrap().to_string(), "dead keys are not supported");
}
