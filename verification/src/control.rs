//! Mapping key presses to reader controls.

use vstd::prelude::*;

verus! {

/// What the event loop should do after waiting for input or the next tick.
#[derive(Clone, Copy, Debug)]
pub enum Control {
    /// Enough time elapsed: show the next word.
    Advance,
    /// Move one word back (paused only).
    Previous,
    /// Move one word forward (paused only).
    Next,
    /// Speed up by one step.
    Faster,
    /// Slow down by one step.
    Slower,
    /// Toggle between paused and playing.
    TogglePause,
    /// Quit the reader.
    Quit,
}

/// The keys the reader tells apart.
#[derive(Clone, Copy, Debug)]
pub enum KeyCode {
    /// A character key.
    Char(char),
    /// The escape key.
    Esc,
    /// The left arrow.
    Left,
    /// The right arrow.
    Right,
    /// Any other key.
    Other,
}

/// A terminal event, as far as the reader looks at it.
#[derive(Clone, Copy, Debug)]
pub enum Input {
    /// A key event: which key, whether Control was held, and whether it was a
    /// press (as opposed to a release or a repeat).
    Key { code: KeyCode, ctrl: bool, pressed: bool },
    /// Anything else (a resize, the mouse, focus changes...).
    Other,
}

/// The control a terminal event maps to while paused or playing, if any.
pub open spec fn control_of(input: Input, paused: bool) -> Option<Control> {
    match input {
        Input::Key { code, ctrl, pressed } => {
            if !pressed {
                None
            } else {
                match code {
                    KeyCode::Char(c) => {
                        if c == 'q' || (c == 'c' && ctrl) {
                            Some(Control::Quit)
                        } else if c == ' ' {
                            Some(Control::TogglePause)
                        } else if c == '+' || c == '=' {
                            Some(Control::Faster)
                        } else if c == '-' {
                            Some(Control::Slower)
                        } else {
                            None
                        }
                    },
                    KeyCode::Esc => Some(Control::Quit),
                    KeyCode::Left => if paused {
                        Some(Control::Previous)
                    } else {
                        None
                    },
                    KeyCode::Right => if paused {
                        Some(Control::Next)
                    } else {
                        None
                    },
                    KeyCode::Other => None,
                }
            }
        },
        Input::Other => None,
    }
}

/// Maps a terminal event to a [`Control`], if it is one we act on.
///
/// `paused` gates the navigation keys: moving through the text only makes
/// sense while playback is stopped.
pub fn control(input: Input, paused: bool) -> (r: Option<Control>)
    ensures
        r == control_of(input, paused),
{
    match input {
        Input::Key { code, ctrl, pressed } => {
            if !pressed {
                return None;
            }
            match code {
                KeyCode::Char(c) => {
                    if c == 'q' || (c == 'c' && ctrl) {
                        Some(Control::Quit)
                    } else if c == ' ' {
                        Some(Control::TogglePause)
                    } else if c == '+' || c == '=' {
                        Some(Control::Faster)
                    } else if c == '-' {
                        Some(Control::Slower)
                    } else {
                        None
                    }
                },
                KeyCode::Esc => Some(Control::Quit),
                KeyCode::Left => if paused {
                    Some(Control::Previous)
                } else {
                    None
                },
                KeyCode::Right => if paused {
                    Some(Control::Next)
                } else {
                    None
                },
                KeyCode::Other => None,
            }
        },
        Input::Other => None,
    }
}

/// Navigation happens only while paused: playing, no event moves through the
/// text by hand.
pub proof fn lemma_navigation_only_when_paused(input: Input)
    ensures
        control_of(input, false) != Some(Control::Previous),
        control_of(input, false) != Some(Control::Next),
{
}

/// Everything but navigation works the same while playing and paused.
pub proof fn lemma_other_keys_ignore_pause(input: Input)
    ensures
        control_of(input, true) != Some(Control::Previous) && control_of(input, true) != Some(
            Control::Next,
        ) ==> control_of(input, true) == control_of(input, false),
{
}

/// Released keys and non-key events are ignored.
pub proof fn lemma_only_presses_count(input: Input, paused: bool)
    ensures
        match input {
            Input::Key { pressed, .. } => !pressed ==> control_of(input, paused) is None,
            Input::Other => control_of(input, paused) is None,
        },
{
}

/// The key bindings, key by key, for a press in either mode and with or
/// without Control: `q` and `Esc` quit, and so does `c` with Control; space
/// toggles the pause; `+` and `=` speed up and `-` slows down; the arrows move
/// back and forward only while paused; `c` without Control, other characters
/// and other keys do nothing.
pub proof fn lemma_key_bindings(paused: bool, ctrl: bool, c: char)
    ensures
        control_of(Input::Key { code: KeyCode::Char('q'), ctrl, pressed: true }, paused) == Some(
            Control::Quit,
        ),
        control_of(Input::Key { code: KeyCode::Esc, ctrl, pressed: true }, paused) == Some(
            Control::Quit,
        ),
        control_of(Input::Key { code: KeyCode::Char('c'), ctrl: true, pressed: true }, paused)
            == Some(Control::Quit),
        control_of(Input::Key { code: KeyCode::Char('c'), ctrl: false, pressed: true }, paused)
            is None,
        control_of(Input::Key { code: KeyCode::Char(' '), ctrl, pressed: true }, paused) == Some(
            Control::TogglePause,
        ),
        control_of(Input::Key { code: KeyCode::Char('+'), ctrl, pressed: true }, paused) == Some(
            Control::Faster,
        ),
        control_of(Input::Key { code: KeyCode::Char('='), ctrl, pressed: true }, paused) == Some(
            Control::Faster,
        ),
        control_of(Input::Key { code: KeyCode::Char('-'), ctrl, pressed: true }, paused) == Some(
            Control::Slower,
        ),
        control_of(Input::Key { code: KeyCode::Left, ctrl, pressed: true }, paused) == (if paused {
            Some(Control::Previous)
        } else {
            None
        }),
        control_of(Input::Key { code: KeyCode::Right, ctrl, pressed: true }, paused) == (if paused {
            Some(Control::Next)
        } else {
            None
        }),
        c != 'q' && c != 'c' && c != ' ' && c != '+' && c != '=' && c != '-' ==> control_of(
            Input::Key { code: KeyCode::Char(c), ctrl, pressed: true },
            paused,
        ) is None,
        control_of(Input::Key { code: KeyCode::Other, ctrl, pressed: true }, paused) is None,
{
}

} // verus!
