use std::time::Duration;

use rscat::timing::{format_eta, format_eta_secs, ms_per_word, word_delay, Pauses};
use rscat::ui::{glyph_width, height, is_pixel, resolve_font, word_start, Font};

#[test]
fn ms_per_word_at_common_speeds() {
    assert_eq!(ms_per_word(300), 200);
    assert_eq!(ms_per_word(600), 100);
    assert_eq!(ms_per_word(150), 400);
}

#[test]
fn ms_per_word_rounds_down() {
    assert_eq!(ms_per_word(7), 8571);
    assert_eq!(ms_per_word(60_001), 0);
}

#[test]
fn format_eta_under_an_hour() {
    assert_eq!(format_eta(Duration::from_secs(0)), "0:00");
    assert_eq!(format_eta(Duration::from_secs(5)), "0:05");
    assert_eq!(format_eta(Duration::from_secs(65)), "1:05");
    assert_eq!(format_eta(Duration::from_secs(3599)), "59:59");
}

#[test]
fn format_eta_over_an_hour() {
    assert_eq!(format_eta(Duration::from_secs(3600)), "1:00:00");
    assert_eq!(format_eta(Duration::from_secs(3661)), "1:01:01");
}

#[test]
fn format_eta_ignores_fractions_and_grows_hours() {
    assert_eq!(format_eta(Duration::from_millis(59_999)), "0:59");
    assert_eq!(format_eta_secs(100 * 3600 + 7), "100:00:07");
    assert_eq!(format_eta_secs(u64::MAX), "5124095576030431:00:15");
}

#[test]
fn word_delay_scales_the_plain_time() {
    let p = Pauses::default();
    assert_eq!(word_delay("word", 300, p), Duration::from_millis(200));
    assert_eq!(word_delay("word:", 300, p), Duration::from_millis(300));
    assert_eq!(word_delay("word!", 300, p), Duration::from_millis(400));
    assert_eq!(word_delay("", 300, p), Duration::from_millis(200));
    // A minute over seven, times one and a half, rounded up to the nanosecond.
    assert_eq!(word_delay("word,", 7, p), Duration::from_nanos(12_857_142_858));
    assert_eq!(word_delay("word", 70, p), Duration::from_nanos(857_142_858));
}

#[test]
fn word_start_centres_the_pivot_and_clamps() {
    // Stage at column 0, 30 wide: pivot column 10.
    assert_eq!(word_start(0, 30, 2, 6), 8);
    // A long left side would start before the stage.
    assert_eq!(word_start(0, 30, 15, 20), 0);
    // A long word is pulled back so it ends at the stage's right edge.
    assert_eq!(word_start(0, 30, 3, 25), 5);
    // A stage further right.
    assert_eq!(word_start(5, 9, 1, 3), 7);
    // Wider than the stage: starts at the stage.
    assert_eq!(word_start(4, 6, 3, 40), 4);
}

#[test]
fn fonts_and_heights() {
    assert_eq!(height(Font::Normal), 2);
    assert_eq!(height(Font::Full), 9);
    assert_eq!(height(Font::Octant), 3);
    assert_eq!(glyph_width(Font::Normal), 1);
    assert_eq!(glyph_width(Font::Sextant), 4);
    assert_eq!(glyph_width(Font::QuarterHeight), 8);
    assert!(!is_pixel(Font::Normal));
    assert!(is_pixel(Font::Sextant));
    assert!(matches!(resolve_font(true, Font::Normal), Font::Sextant));
    assert!(matches!(resolve_font(true, Font::Full), Font::Full));
    assert!(matches!(resolve_font(false, Font::Normal), Font::Normal));
}
