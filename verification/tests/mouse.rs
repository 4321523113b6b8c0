use age::os::{MouseButton, MouseButtons};

#[test]
fn mouse_left_button() {
    let mut m = MouseButtons::new();

    assert!(!m.button_pressed(MouseButton::Left));
    assert!(!m.button_held(MouseButton::Left));
    assert!(!m.button_released(MouseButton::Left));

    m.flush();
    m.on_input(MouseButton::Left, true);

    assert!(m.button_pressed(MouseButton::Left));
    assert!(!m.button_held(MouseButton::Left));
    assert!(!m.button_released(MouseButton::Left));

    m.flush();

    assert!(!m.button_pressed(MouseButton::Left));
    assert!(m.button_held(MouseButton::Left));
    assert!(!m.button_released(MouseButton::Left));

    m.flush();
    m.on_input(MouseButton::Left, false);

    assert!(!m.button_pressed(MouseButton::Left));
    assert!(!m.button_held(MouseButton::Left));
    assert!(m.button_released(MouseButton::Left));

    m.flush();

    assert!(!m.button_pressed(MouseButton::Left));
    assert!(!m.button_held(MouseButton::Left));
    assert!(!m.button_released(MouseButton::Left));
}

#[test]
fn mouse_buttons_default_unpressed() {
    let m = MouseButtons::new();
    for b in [
        MouseButton::Left,
        MouseButton::Right,
        MouseButton::Middle,
        MouseButton::Back,
        MouseButton::Forward,
        MouseButton::Other(7),
    ] {
        assert!(!m.button_pressed(b));
        assert!(!m.button_held(b));
        assert!(!m.button_released(b));
    }
}

#[test]
fn mouse_buttons_are_independent() {
    let mut m = MouseButtons::new();
    m.on_input(MouseButton::Left, true);
    m.on_input(MouseButton::Other(3), true);
    assert!(m.button_pressed(MouseButton::Left));
    assert!(m.button_pressed(MouseButton::Other(3)));
    assert!(!m.button_pressed(MouseButton::Other(4)));
    assert!(!m.button_pressed(MouseButton::Right));
}

#[test]
fn mouse_accepts_only_moving_events() {
    let mut m = MouseButtons::new();
    assert!(m.accepts(MouseButton::Left, true));
    assert!(!m.accepts(MouseButton::Left, false));
    m.on_input(MouseButton::Left, true);
    // A release in the frame of the press is not an event the mouse accepts.
    assert!(!m.accepts(MouseButton::Left, false));
    m.flush();
    assert!(m.accepts(MouseButton::Left, false));
    assert!(!m.accepts(MouseButton::Left, true));
}
