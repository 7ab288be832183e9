use rscat::control::{control, Control, Input, KeyCode};

fn press(code: KeyCode, ctrl: bool) -> Input {
    Input::Key { code, ctrl, pressed: true }
}

fn release(code: KeyCode) -> Input {
    Input::Key { code, ctrl: false, pressed: false }
}

#[test]
fn space_toggles_pause_and_quit_keys_quit() {
    assert!(matches!(
        control(press(KeyCode::Char(' '), false), false),
        Some(Control::TogglePause)
    ));
    assert!(matches!(
        control(press(KeyCode::Char('q'), false), false),
        Some(Control::Quit)
    ));
    assert!(matches!(
        control(press(KeyCode::Esc, false), false),
        Some(Control::Quit)
    ));
    assert!(matches!(
        control(press(KeyCode::Char('c'), true), false),
        Some(Control::Quit)
    ));
}

#[test]
fn arrows_navigate_only_when_paused() {
    assert!(matches!(
        control(press(KeyCode::Left, false), true),
        Some(Control::Previous)
    ));
    assert!(matches!(
        control(press(KeyCode::Right, false), true),
        Some(Control::Next)
    ));
    assert!(control(press(KeyCode::Left, false), false).is_none());
    assert!(control(press(KeyCode::Right, false), false).is_none());
}

#[test]
fn speed_keys_work_while_playing_and_paused() {
    for paused in [true, false] {
        assert!(matches!(
            control(press(KeyCode::Char('+'), false), paused),
            Some(Control::Faster)
        ));
        // `+` without shift is usually the `=` key.
        assert!(matches!(
            control(press(KeyCode::Char('='), false), paused),
            Some(Control::Faster)
        ));
        assert!(matches!(
            control(press(KeyCode::Char('-'), false), paused),
            Some(Control::Slower)
        ));
    }
}

#[test]
fn unmatched_and_released_keys_are_ignored() {
    assert!(control(press(KeyCode::Char('x'), false), false).is_none());
    assert!(control(release(KeyCode::Char(' ')), true).is_none());
    assert!(control(Input::Other, true).is_none());
}

#[test]
fn plain_c_does_not_quit_but_ctrl_q_does() {
    assert!(control(press(KeyCode::Char('c'), false), false).is_none());
    assert!(matches!(
        control(press(KeyCode::Char('q'), true), true),
        Some(Control::Quit)
    ));
    assert!(control(press(KeyCode::Other, false), true).is_none());
}
