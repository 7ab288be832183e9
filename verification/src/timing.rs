//! How long each word stays on screen, and how remaining time is shown.

use std::time::Duration;

use vstd::prelude::*;

use crate::chars::{char_is_alphanumeric, is_alphanumeric_char, string_push};
use crate::clock::{duration_secs, from_nanos, nanos, whole_secs};
use crate::decimal::{
    decimal, is_digit, lemma_decimal_injective, lemma_decimal_shape, lemma_two_digits,
    push_decimal, push_two_digits, two_digits,
};

verus! {

/// Slowest reading speed the reader accepts, in words per minute.
pub const MIN_WPM: u32 = 60;

/// Fastest reading speed the reader accepts, in words per minute.
pub const MAX_WPM: u32 = 50000;

/// How much one "faster" or "slower" step changes the speed.
pub const WPM_STEP: u32 = 10;

/// Default display time of a word ending in `,` `;` `:`, in thousandths of the
/// plain per-word time.
pub const DEFAULT_CLAUSE_PAUSE: u32 = 1500;

/// Default display time of a word ending in `.` `?` `!`, in thousandths of the
/// plain per-word time.
pub const DEFAULT_SENTENCE_PAUSE: u32 = 2000;

/// The plain per-word time at `wpm` words per minute, in milliseconds.
pub open spec fn spec_ms_per_word(wpm: nat) -> nat
    recommends
        wpm > 0,
{
    60_000nat / wpm
}

/// Milliseconds each word stays on screen at the given speed.
pub fn ms_per_word(wpm: u32) -> (ms: u64)
    requires
        wpm > 0,
    ensures
        ms == spec_ms_per_word(wpm as nat),
{
    60_000 / (wpm as u64)
}

/// `secs` seconds written as `m:ss`, or `h:mm:ss` once it reaches an hour.
pub open spec fn eta_text(secs: nat) -> Seq<char> {
    let hours = secs / 3600;
    let minutes = (secs % 3600) / 60;
    let seconds = secs % 60;
    if hours == 0 {
        decimal(minutes) + seq![':'] + two_digits(seconds)
    } else {
        decimal(hours) + seq![':'] + two_digits(minutes) + seq![':'] + two_digits(seconds)
    }
}

/// The time-left text determines the whole seconds it was written from:
/// reading its colon-separated fields back as minutes and seconds, or hours,
/// minutes and seconds, gives the seconds again, so two durations are shown
/// alike exactly when they hold the same whole seconds.
pub proof fn lemma_eta_text_injective(a: nat, b: nat)
    requires
        eta_text(a) == eta_text(b),
    ensures
        a == b,
{
    let t = eta_text(a);
    let (ha, ma, sa) = (a / 3600, (a % 3600) / 60, a % 60);
    let (hb, mb, sb) = (b / 3600, (b % 3600) / 60, b % 60);
    lemma_two_digits(sa, sb);
    lemma_two_digits(ma, mb);
    lemma_two_digits(sb, sa);
    lemma_two_digits(mb, ma);
    let n = t.len();
    // The last two characters are the seconds, preceded by a colon.
    let head_a = if ha == 0 {
        decimal(ma)
    } else {
        decimal(ha) + seq![':'] + two_digits(ma)
    };
    let head_b = if hb == 0 {
        decimal(mb)
    } else {
        decimal(hb) + seq![':'] + two_digits(mb)
    };
    assert(eta_text(a) == head_a + seq![':'] + two_digits(sa));
    assert(eta_text(b) == head_b + seq![':'] + two_digits(sb));
    assert(t.skip(n - 2) == two_digits(sa));
    assert(eta_text(b).skip(n - 2) == two_digits(sb));
    assert(sa == sb);
    assert(t.take(n - 3) == head_a);
    assert(eta_text(b).take(n - 3) == head_b);
    assert(head_a == head_b);
    lemma_decimal_shape(ma);
    lemma_decimal_shape(mb);
    lemma_decimal_shape(ha);
    lemma_decimal_shape(hb);
    if ha == 0 && hb == 0 {
        lemma_decimal_injective(ma, mb);
    } else if ha != 0 && hb != 0 {
        let k = head_a.len();
        assert(head_a.skip(k - 2) == two_digits(ma));
        assert(head_b.skip(k - 2) == two_digits(mb));
        assert(ma == mb);
        assert(head_a.take(k - 3) == decimal(ha));
        assert(head_b.take(k - 3) == decimal(hb));
        lemma_decimal_injective(ha, hb);
    } else if ha == 0 {
        let i = decimal(hb).len() as int;
        assert(head_b[i] == ':');
        assert(head_a[i] == decimal(ma)[i]);
        assert(is_digit(decimal(ma)[i]));
    } else {
        let i = decimal(ha).len() as int;
        assert(head_a[i] == ':');
        assert(head_b[i] == decimal(mb)[i]);
        assert(is_digit(decimal(mb)[i]));
    }
    assert(a == ha * 3600 + ma * 60 + sa);
    assert(b == hb * 3600 + mb * 60 + sb);
}

/// Formats a duration as `m:ss`, or `h:mm:ss` once it reaches an hour.
pub fn format_eta(duration: Duration) -> (s: String)
    ensures
        s@ == eta_text(whole_secs(duration) as nat),
{
    let total = duration_secs(duration);
    format_eta_secs(total)
}

/// Formats `total` seconds as `m:ss`, or `h:mm:ss` once it reaches an hour.
pub fn format_eta_secs(total: u64) -> (s: String)
    ensures
        s@ == eta_text(total as nat),
{
    let hours = total / 3600;
    let minutes = (total % 3600) / 60;
    let seconds = total % 60;
    let mut s = String::new();
    if hours == 0 {
        push_decimal(&mut s, minutes);
        string_push(&mut s, ':');
        push_two_digits(&mut s, seconds);
    } else {
        push_decimal(&mut s, hours);
        string_push(&mut s, ':');
        push_two_digits(&mut s, minutes);
        string_push(&mut s, ':');
        push_two_digits(&mut s, seconds);
    }
    s
}

/// The number of characters of `s` up to and including its last alphanumeric
/// one (zero when it has none).
pub open spec fn core_len(s: Seq<char>) -> nat
    decreases s.len(),
{
    if s.len() == 0 {
        0
    } else if is_alphanumeric_char(s.last()) {
        s.len()
    } else {
        core_len(s.drop_last())
    }
}

/// `s` without the non-alphanumeric characters that trail it.
pub open spec fn core_of(s: Seq<char>) -> Seq<char> {
    s.take(core_len(s) as int)
}

/// The two kinds of punctuation that lengthen a word's display time.
pub enum Mark {
    /// `.` `?` `!`
    Sentence,
    /// `,` `;` `:`
    Clause,
}

/// Whether `c` is a punctuation mark of kind `m`.
pub open spec fn is_mark(c: char, m: Mark) -> bool {
    match m {
        Mark::Sentence => c == '.' || c == '?' || c == '!',
        Mark::Clause => c == ',' || c == ';' || c == ':',
    }
}

/// Whether a mark of kind `m` stands among the non-alphanumeric characters
/// that trail `s`.
pub open spec fn trailing_mark(s: Seq<char>, m: Mark) -> bool
    decreases s.len(),
{
    s.len() > 0 && !is_alphanumeric_char(s.last()) && (is_mark(s.last(), m) || trailing_mark(
        s.drop_last(),
        m,
    ))
}

/// Display time of the words that end a clause or a sentence, in thousandths
/// of the plain per-word time.
#[derive(Clone, Copy, Debug)]
pub struct Pauses {
    /// For a word ending in `,` `;` `:`.
    pub clause: u32,
    /// For a word ending in `.` `?` `!`.
    pub sentence: u32,
}

impl Default for Pauses {
    fn default() -> (p: Self)
        ensures
            p.clause == DEFAULT_CLAUSE_PAUSE,
            p.sentence == DEFAULT_SENTENCE_PAUSE,
    {
        Pauses { clause: DEFAULT_CLAUSE_PAUSE, sentence: DEFAULT_SENTENCE_PAUSE }
    }
}

/// The scale applied to the plain per-word time of `word`, in thousandths: a
/// sentence pause wins over a clause pause.
pub open spec fn pause_scale(word: Seq<char>, pauses: Pauses) -> nat {
    if trailing_mark(word, Mark::Sentence) {
        pauses.sentence as nat
    } else if trailing_mark(word, Mark::Clause) {
        pauses.clause as nat
    } else {
        1000
    }
}

/// `core_len` is the position just after the last alphanumeric character,
/// or zero when there is none.
pub proof fn lemma_core_len_at(s: Seq<char>, j: int)
    requires
        0 <= j <= s.len(),
        j == 0 || is_alphanumeric_char(s[j - 1]),
        forall|k: int| j <= k < s.len() ==> !is_alphanumeric_char(#[trigger] s[k]),
    ensures
        core_len(s) == j,
    decreases s.len(),
{
    if s.len() > j {
        let t = s.drop_last();
        assert forall|k: int| j <= k < t.len() implies !is_alphanumeric_char(#[trigger] t[k]) by {
            assert(t[k] == s[k]);
        }
        if j > 0 {
            assert(t[j - 1] == s[j - 1]);
        }
        lemma_core_len_at(t, j);
    }
}

/// How long `word` stays on screen at `wpm`, in nanoseconds: a minute over
/// `wpm`, scaled by its pause, rounded up to the nanosecond (so a word never
/// shows for less than its share of the reading time).
pub open spec fn delay_nanos(word: Seq<char>, wpm: nat, pauses: Pauses) -> nat
    recommends
        wpm > 0,
{
    ((60_000_000 * pause_scale(word, pauses) + wpm - 1) / (wpm as int)) as nat
}

/// A word ending in a letter or digit shows for the plain time; one more
/// clause mark gives it the clause pause, one more sentence mark the sentence
/// pause (with the default pauses, 1.5 and 2 times the plain time).
pub proof fn lemma_punctuation_pauses(w: Seq<char>, c: char, pauses: Pauses)
    requires
        w.len() > 0,
        is_alphanumeric_char(w.last()),
    ensures
        pause_scale(w, pauses) == 1000,
        is_mark(c, Mark::Sentence) ==> pause_scale(w.push(c), pauses) == pauses.sentence,
        is_mark(c, Mark::Clause) ==> pause_scale(w.push(c), pauses) == pauses.clause,
{
    assert(w.push(c).drop_last() == w);
    assert(w.push(c).last() == c);
}

/// Punctuation pauses by the marks themselves: a word followed by `.`, `?`
/// or `!` shows for the sentence pause times the plain time, whatever came
/// before; a word that ends in a letter or digit (or nothing) followed by
/// `,`, `;` or `:` shows for the clause pause times the plain time; and a word
/// ending in a letter or digit shows for the plain time, a minute over `wpm`.
pub proof fn lemma_mark_pauses(w: Seq<char>, p: Pauses, wpm: nat)
    requires
        wpm > 0,
    ensures
        pause_scale(w.push('.'), p) == p.sentence,
        pause_scale(w.push('?'), p) == p.sentence,
        pause_scale(w.push('!'), p) == p.sentence,
        delay_nanos(w.push('?'), wpm, p) == (60_000_000 * p.sentence + wpm - 1) / (wpm as int),
        w.len() == 0 || is_alphanumeric_char(w.last()) ==> {
            &&& pause_scale(w.push(','), p) == p.clause
            &&& pause_scale(w.push(';'), p) == p.clause
            &&& pause_scale(w.push(':'), p) == p.clause
            &&& delay_nanos(w.push(','), wpm, p) == (60_000_000 * p.clause + wpm - 1) / (wpm as int)
        },
        w.len() > 0 && is_alphanumeric_char(w.last()) ==> delay_nanos(w, wpm, p) == (
        60_000_000_000 + wpm - 1) / (wpm as int),
{
    let marks = seq!['.', '?', '!', ',', ';', ':'];
    assert forall|k: int| 0 <= k < marks.len() implies {
        let c = #[trigger] marks[k];
        &&& w.push(c).drop_last() == w
        &&& w.push(c).last() == c
        &&& !is_alphanumeric_char(c)
    } by {}
    assert(marks[0] == '.' && marks[1] == '?' && marks[2] == '!');
    assert(marks[3] == ',' && marks[4] == ';' && marks[5] == ':');
    if w.len() == 0 || is_alphanumeric_char(w.last()) {
        assert(!trailing_mark(w, Mark::Sentence));
        assert(!trailing_mark(w.push(','), Mark::Sentence));
        assert(!trailing_mark(w.push(';'), Mark::Sentence));
        assert(!trailing_mark(w.push(':'), Mark::Sentence));
    }
}

/// A display time is a minute over `wpm`, scaled by the pause in thousandths,
/// rounded up to the nanosecond: never shorter than that, and less than a
/// nanosecond longer.
pub proof fn lemma_delay_rounds_up(word: Seq<char>, wpm: nat, p: Pauses)
    requires
        wpm > 0,
    ensures
        delay_nanos(word, wpm, p) * wpm >= 60_000_000 * pause_scale(word, p),
        (delay_nanos(word, wpm, p) - 1) * wpm < 60_000_000 * pause_scale(word, p),
{
    let x: int = (60_000_000 * pause_scale(word, p)) as int;
    let w: int = wpm as int;
    let d: int = delay_nanos(word, wpm, p) as int;
    assert(d * w >= x && (d - 1) * w < x) by (nonlinear_arith)
        requires
            w > 0,
            x >= 0,
            d == (x + w - 1) / w,
    {
        let y = x + w - 1;
        assert(y == d * w + y % w);
        assert(0 <= y % w < w);
    }
}

/// One pass over `word`: the length of its core and whether a sentence or
/// clause mark trails it.
fn scan(word: &str) -> (r: (usize, bool, bool))
    ensures
        r.0 == core_len(word@),
        r.1 == trailing_mark(word@, Mark::Sentence),
        r.2 == trailing_mark(word@, Mark::Clause),
{
    let ghost s = word@;
    let n = word.unicode_len();
    let mut k: usize = 0;
    let mut sentence = false;
    let mut clause = false;
    let mut i: usize = 0;
    for c in it: word.chars()
        invariant
            it.seq() == s,
            n == s.len(),
            i == it.index(),
            i <= s.len(),
            k == core_len(s.take(i as int)),
            sentence == trailing_mark(s.take(i as int), Mark::Sentence),
            clause == trailing_mark(s.take(i as int), Mark::Clause),
    {
        assert(c == s[i as int]);
        assert(s.take(i + 1).drop_last() == s.take(i as int));
        assert(s.take(i + 1).last() == c);
        if char_is_alphanumeric(c) {
            k = i + 1;
            sentence = false;
            clause = false;
        } else {
            if c == '.' || c == '?' || c == '!' {
                sentence = true;
            }
            if c == ',' || c == ';' || c == ':' {
                clause = true;
            }
        }
        i = i + 1;
    }
    assert(s.take(i as int) == s);
    (k, sentence, clause)
}

/// `word` without the non-alphanumeric characters that trail it.
pub fn word_core(word: &str) -> (core: &str)
    ensures
        core@ == core_of(word@),
{
    let (k, _, _) = scan(word);
    proof {
        lemma_core(word@);
    }
    word.substring_char(0, k)
}

/// The core of a word is a prefix of it that is empty or ends in an
/// alphanumeric character, and nothing alphanumeric follows it.
pub proof fn lemma_core(s: Seq<char>)
    ensures
        core_len(s) <= s.len(),
        core_of(s) == s.take(core_len(s) as int),
        core_len(s) > 0 ==> is_alphanumeric_char(s[core_len(s) - 1]),
        forall|j: int| core_len(s) <= j < s.len() ==> !is_alphanumeric_char(#[trigger] s[j]),
    decreases s.len(),
{
    if s.len() > 0 {
        lemma_core(s.drop_last());
        assert forall|j: int| core_len(s) <= j < s.len() implies !is_alphanumeric_char(
            #[trigger] s[j],
        ) by {
            if j < s.len() - 1 {
                assert(s.drop_last()[j] == s[j]);
            }
        }
        if core_len(s) > 0 && core_len(s) < s.len() {
            assert(s.drop_last()[core_len(s) - 1] == s[core_len(s) - 1]);
        }
    }
}

/// How long `word` should stay on screen at `wpm`, including any punctuation
/// pause.
pub fn word_delay(word: &str, wpm: u32, pauses: Pauses) -> (d: Duration)
    requires
        wpm > 0,
    ensures
        d == nanos(delay_nanos(word@, wpm as nat, pauses) as u64),
{
    let (_, sentence, clause) = scan(word);
    let scale: u64 = if sentence {
        pauses.sentence as u64
    } else if clause {
        pauses.clause as u64
    } else {
        1000
    };
    assert(60_000_000 * scale <= 60_000_000 * 0xffff_ffffu64) by (nonlinear_arith)
        requires
            scale <= 0xffff_ffff,
    ;
    let w = wpm as u64;
    from_nanos((60_000_000 * scale + w - 1) / w)
}

} // verus!
