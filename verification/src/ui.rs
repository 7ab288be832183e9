//! What the screen shows, as plain values: word sizes, where the word line
//! starts so its pivot lands on the pivot column, and the status line.

use vstd::prelude::*;

use crate::app::{remaining_nanos, Reader};
use crate::decimal::{decimal, push_decimal};
use crate::timing::{eta_text, format_eta};

verus! {

/// Size of the current word: plain one-line text, or pixel art of the given
/// height in terminal rows.
#[derive(Clone, Copy, Debug)]
pub enum Font {
    Normal,
    Full,
    HalfHeight,
    HalfWidth,
    Quadrant,
    ThirdHeight,
    Sextant,
    QuarterHeight,
    Octant,
}

/// The terminal rows one line of text takes in `font`.
pub open spec fn font_rows(font: Font) -> nat {
    match font {
        Font::Normal => 1,
        Font::Full => 8,
        Font::HalfHeight => 4,
        Font::HalfWidth => 8,
        Font::Quadrant => 4,
        Font::ThirdHeight => 3,
        Font::Sextant => 3,
        Font::QuarterHeight => 2,
        Font::Octant => 2,
    }
}

/// The terminal rows the word takes in `font`.
pub fn font_rows_of(font: Font) -> (h: u16)
    ensures
        h == font_rows(font),
{
    match font {
        Font::Normal => 1,
        Font::Full => 8,
        Font::HalfHeight => 4,
        Font::HalfWidth => 8,
        Font::Quadrant => 4,
        Font::ThirdHeight => 3,
        Font::Sextant => 3,
        Font::QuarterHeight => 2,
        Font::Octant => 2,
    }
}

/// The terminal columns one character takes in `font`.
pub open spec fn font_cols(font: Font) -> nat {
    match font {
        Font::Normal => 1,
        Font::Full => 8,
        Font::HalfHeight => 8,
        Font::HalfWidth => 4,
        Font::Quadrant => 4,
        Font::ThirdHeight => 8,
        Font::Sextant => 4,
        Font::QuarterHeight => 8,
        Font::Octant => 4,
    }
}

/// How many pixels of a pixel font share one terminal cell, across and down,
/// as each font's name says: a full cell, a half (upper/lower or left/right),
/// a quadrant, a third, a sextant (2 by 3), a quarter, an octant (2 by 4).
/// Plain text has none.
pub open spec fn pixels_per_cell(font: Font) -> (nat, nat) {
    match font {
        Font::Normal => (0, 0),
        Font::Full => (1, 1),
        Font::HalfHeight => (1, 2),
        Font::HalfWidth => (2, 1),
        Font::Quadrant => (2, 2),
        Font::ThirdHeight => (1, 3),
        Font::Sextant => (2, 3),
        Font::QuarterHeight => (1, 4),
        Font::Octant => (2, 4),
    }
}

/// A pixel font draws each character as an 8 by 8 pixel glyph: the word
/// takes as many rows as 8 pixels need down, rounded up, and each character
/// as many columns as 8 pixels need across. Plain text takes one row and one
/// column per character.
pub proof fn lemma_font_geometry(font: Font)
    ensures
        font is Normal ==> font_rows(font) == 1 && font_cols(font) == 1,
        !(font is Normal) ==> {
            let (across, down) = pixels_per_cell(font);
            &&& font_rows(font) * down >= 8
            &&& (font_rows(font) - 1) * down < 8
            &&& font_cols(font) * across == 8
        },
{
}

/// Rows of the inline viewport: the word, then one status line.
pub fn height(font: Font) -> (h: u16)
    ensures
        h == font_rows(font) + 1,
{
    font_rows_of(font) + 1
}

/// The terminal columns one character of the word takes in `font`.
pub fn glyph_width(font: Font) -> (w: u16)
    ensures
        w == font_cols(font),
{
    match font {
        Font::Normal => 1,
        Font::Full => 8,
        Font::HalfHeight => 8,
        Font::HalfWidth => 4,
        Font::Quadrant => 4,
        Font::ThirdHeight => 8,
        Font::Sextant => 4,
        Font::QuarterHeight => 8,
        Font::Octant => 4,
    }
}

/// Whether `font` draws pixel art (anything but the plain one-line text).
pub fn is_pixel(font: Font) -> (b: bool)
    ensures
        b == !(font is Normal),
{
    match font {
        Font::Normal => false,
        _ => true,
    }
}

/// The font in use: `--big` is a shorthand for the sextant font, unless an
/// explicit non-default font was requested.
pub fn resolve_font(big: bool, font: Font) -> (f: Font)
    ensures
        f == (if big && font is Normal {
            Font::Sextant
        } else {
            font
        }),
{
    match (big, font) {
        (true, Font::Normal) => Font::Sextant,
        (_, font) => font,
    }
}

/// `a - b`, or zero when `b` is larger.
pub open spec fn sat_sub(a: nat, b: nat) -> nat {
    if a >= b {
        (a - b) as nat
    } else {
        0
    }
}

/// The column the word line starts at, for a stage starting at column `x`
/// and `width` wide, and a word `word_width` wide whose pivot is preceded by
/// `left_width` characters: the pivot lands on the column a third of the way
/// in, unless that would push the word out of the stage, which wins over it.
pub open spec fn start_column(x: nat, width: nat, left_width: nat, word_width: nat) -> nat {
    let pivot_x = x + width / 3;
    let right = if x + width <= u16::MAX {
        x + width
    } else {
        u16::MAX as nat
    };
    let max_start = sat_sub(right, word_width);
    let s = sat_sub(pivot_x, left_width);
    let s = if s <= max_start {
        s
    } else {
        max_start
    };
    if s >= x {
        s
    } else {
        x
    }
}

/// Where the word line starts so its pivot character lands on the stage's
/// pivot column (one third in), clamping the whole word inside the stage.
pub fn word_start(x: u16, width: u16, left_width: u16, word_width: u16) -> (s: u16)
    requires
        x + width / 3 <= u16::MAX,
    ensures
        s == start_column(x as nat, width as nat, left_width as nat, word_width as nat),
{
    let pivot_x = x + width / 3;
    let right = x.saturating_add(width);
    let max_start = right.saturating_sub(word_width);
    let s = pivot_x.saturating_sub(left_width);
    let s = if s <= max_start {
        s
    } else {
        max_start
    };
    if s >= x {
        s
    } else {
        x
    }
}

/// The word line never starts left of the stage; a word that fits in the
/// stage ends inside it; and when there is room on both sides, the pivot
/// lands exactly on the pivot column.
pub proof fn lemma_word_placement(x: nat, width: nat, left_width: nat, word_width: nat)
    requires
        x + width <= u16::MAX,
    ensures
        start_column(x, width, left_width, word_width) >= x,
        word_width <= width ==> start_column(x, width, left_width, word_width) + word_width <= x
            + width,
        left_width <= width / 3 && x + width / 3 - left_width + word_width <= x + width
            ==> start_column(x, width, left_width, word_width) + left_width == x + width / 3,
{
}

/// The status line: position, length, speed and the time left.
pub open spec fn status_text_of(position: nat, len: nat, wpm: nat, eta_secs: nat) -> Seq<char> {
    decimal(position) + seq!['/'] + decimal(len) + seq![' ', ' ', ' '] + decimal(wpm) + seq![
        ' ',
        'w',
        'p',
        'm',
        ' ',
        ' ',
        ' ',
        'E',
        'T',
        'A',
        ' ',
    ] + eta_text(eta_secs)
}

fn push_all(s: &mut String, text: &str)
    ensures
        final(s)@ == old(s)@ + text@,
{
    s.append(text);
}

/// The status line of `reader`: position (never past the end), length, speed
/// and the estimated time left.
pub fn status_text(reader: &Reader) -> (s: String)
    requires
        reader@.wpm > 0,
        remaining_nanos(reader@) / 1_000_000_000 <= u64::MAX,
    ensures
        s@ == status_text_of(
            if reader@.index <= reader@.words.len() {
                reader@.index
            } else {
                reader@.words.len()
            },
            reader@.words.len(),
            reader@.wpm,
            remaining_nanos(reader@) / 1_000_000_000,
        ),
{
    let len = reader.len();
    let index = reader.index();
    let position = if index <= len {
        index
    } else {
        len
    };
    let mut s = String::new();
    push_decimal(&mut s, position as u64);
    push_all(&mut s, "/");
    push_decimal(&mut s, len as u64);
    push_all(&mut s, "   ");
    push_decimal(&mut s, reader.wpm() as u64);
    push_all(&mut s, " wpm   ETA ");
    let eta = format_eta(reader.remaining());
    push_all(&mut s, eta.as_str());
    proof {
        reveal_strlit("/");
        reveal_strlit("   ");
        reveal_strlit(" wpm   ETA ");
        assert("/"@ =~= seq!['/']);
        assert("   "@ =~= seq![' ', ' ', ' ']);
        assert(" wpm   ETA "@ =~= seq![' ', 'w', 'p', 'm', ' ', ' ', ' ', 'E', 'T', 'A', ' ']);
    }
    s
}

} // verus!
