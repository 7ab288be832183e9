use std::time::Duration;

use rscat::app::{Reader, Step};
use rscat::control::Control;
use rscat::timing::{Pauses, MAX_WPM, MIN_WPM};
use rscat::ui::status_text;

fn reader(words: &[&str], wpm: u32) -> Reader {
    Reader::new(words.iter().map(|w| (*w).to_string()).collect(), wpm, Pauses::default())
}

#[test]
fn advances_through_words() {
    let mut r = reader(&["one", "two"], 300);
    assert_eq!(r.current().map(String::as_str), Some("one"));
    r.advance();
    assert_eq!(r.current().map(String::as_str), Some("two"));
    r.advance();
    assert_eq!(r.current(), None);
}

#[test]
fn remaining_scales_with_speed() {
    // 600 words left at 300 wpm = 2 minutes.
    let r = reader(&vec!["w"; 600], 300);
    assert_eq!(r.remaining(), Duration::from_secs(120));
}

#[test]
fn tick_includes_punctuation_pause() {
    assert_eq!(reader(&["dog"], 300).tick(), Duration::from_millis(200));
    assert_eq!(reader(&["dog,"], 300).tick(), Duration::from_millis(300));
    assert_eq!(reader(&["dog."], 300).tick(), Duration::from_millis(400));
    assert_eq!(reader(&[], 300).tick(), Duration::ZERO);
}

#[test]
fn tick_looks_past_closing_quotes_and_uses_custom_pauses() {
    assert_eq!(reader(&["dog.\""], 300).tick(), Duration::from_millis(400));
    assert_eq!(reader(&["dog);"], 300).tick(), Duration::from_millis(300));
    assert_eq!(reader(&["end?!"], 600).tick(), Duration::from_millis(200));
    let r = Reader::new(vec!["wait,".to_string()], 300, Pauses { clause: 3000, sentence: 1000 });
    assert_eq!(r.tick(), Duration::from_millis(600));
    let r = Reader::new(vec!["3.14".to_string()], 300, Pauses::default());
    assert_eq!(r.tick(), Duration::from_millis(200));
}

#[test]
fn remaining_counts_only_words_still_to_come() {
    let mut r = reader(&["a", "b", "c", "d"], 60);
    assert_eq!(r.remaining(), Duration::from_secs(4));
    r.advance();
    assert_eq!(r.remaining(), Duration::from_secs(3));
    for _ in 0..5 {
        r.advance();
    }
    assert_eq!(r.remaining(), Duration::ZERO);
    assert_eq!(reader(&["a"], 7).remaining(), Duration::new(8, 571_428_571));
    // Rounded to the nearest nanosecond.
    assert_eq!(reader(&["a"], 90).remaining(), Duration::new(0, 666_666_667));
}

#[test]
fn tick_needs_no_speed_once_the_text_is_exhausted() {
    assert_eq!(reader(&[], 0).tick(), Duration::ZERO);
}

#[test]
fn eta_is_a_lower_bound_at_any_speed() {
    let mut r = reader(&vec!["word"; 7000], 70);
    assert_eq!(r.remaining(), Duration::from_secs(6000));
    let eta = r.remaining();
    let mut total = Duration::ZERO;
    while r.current().is_some() {
        total += r.tick();
        r.advance();
    }
    assert!(eta <= total);
}

#[test]
fn eta_is_a_lower_bound_on_the_ticks() {
    let mut r = reader(&["It", "was", "late,", "and", "dark."], 300);
    let eta = r.remaining();
    let mut total = Duration::ZERO;
    while r.current().is_some() {
        total += r.tick();
        r.advance();
    }
    assert!(eta <= total);
    assert_eq!(total, Duration::from_millis(200 + 200 + 300 + 200 + 400));
}

#[test]
fn getters_report_the_state() {
    let r = reader(&["a", "b"], 250);
    assert_eq!(r.len(), 2);
    assert!(!r.is_empty());
    assert_eq!(r.index(), 0);
    assert_eq!(r.wpm(), 250);
    assert!(reader(&[], 250).is_empty());
}

#[test]
fn navigation_stays_inside_the_text_and_undoes_itself() {
    let mut r = reader(&["a", "b", "c"], 300);
    r.retreat();
    assert_eq!(r.index(), 0);
    r.step_forward();
    r.step_forward();
    assert_eq!(r.index(), 2);
    r.step_forward();
    assert_eq!(r.index(), 2);
    r.retreat();
    assert_eq!(r.index(), 1);
    r.step_forward();
    assert_eq!(r.index(), 2);
}

#[test]
fn speed_changes_are_clamped_and_undo_each_other() {
    let mut r = reader(&["a"], 300);
    r.faster(10);
    assert_eq!(r.wpm(), 310);
    r.slower(10);
    assert_eq!(r.wpm(), 300);
    r.slower(1000);
    assert_eq!(r.wpm(), MIN_WPM);
    r.faster(u32::MAX);
    assert_eq!(r.wpm(), MAX_WPM);
}

#[test]
fn react_while_playing() {
    let mut r = reader(&["a", "b", "c"], 300);
    assert!(matches!(r.react(false, Control::Advance), Step::Continue { paused: false, restart: true }));
    assert_eq!(r.index(), 1);
    assert!(matches!(r.react(false, Control::Next), Step::Continue { paused: false, restart: false }));
    assert_eq!(r.index(), 1);
    assert!(matches!(r.react(false, Control::Faster), Step::Continue { paused: false, restart: false }));
    assert_eq!(r.wpm(), 310);
    assert!(matches!(r.react(false, Control::TogglePause), Step::Continue { paused: true, restart: true }));
    assert!(matches!(r.react(false, Control::Quit), Step::Quit));
    assert_eq!(r.index(), 1);
}

#[test]
fn react_while_paused() {
    let mut r = reader(&["a", "b", "c"], 300);
    assert!(matches!(r.react(true, Control::Next), Step::Continue { paused: true, restart: false }));
    assert_eq!(r.index(), 1);
    assert!(matches!(r.react(true, Control::Previous), Step::Continue { paused: true, restart: false }));
    assert_eq!(r.index(), 0);
    assert!(matches!(r.react(true, Control::Advance), Step::Continue { paused: true, restart: false }));
    assert_eq!(r.index(), 0);
    assert!(matches!(r.react(true, Control::Slower), Step::Continue { paused: true, restart: false }));
    assert_eq!(r.wpm(), 290);
    assert!(matches!(r.react(true, Control::TogglePause), Step::Continue { paused: false, restart: true }));
}

#[test]
fn status_line_shows_position_speed_and_eta() {
    let mut r = reader(&vec!["w"; 600], 300);
    assert_eq!(status_text(&r), "0/600   300 wpm   ETA 2:00");
    r.advance();
    assert_eq!(status_text(&r), "1/600   300 wpm   ETA 1:59");
    let mut r = reader(&["a"], 300);
    r.advance();
    r.advance();
    assert_eq!(status_text(&r), "1/1   300 wpm   ETA 0:00");
}
