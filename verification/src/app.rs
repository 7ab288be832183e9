//! Reading state: the word list, the current position, the speed and the
//! punctuation pauses.

use std::time::Duration;

use vstd::prelude::*;

use crate::clock::{duration_of, from_nanos, nanos, new_duration, whole_secs};
use crate::control::Control;
use crate::text::views;
use crate::timing::{
    delay_nanos, pause_scale, word_delay, Pauses, MAX_WPM, MIN_WPM, WPM_STEP,
};

verus! {

/// Reading state: the full word list, the current position, the speed and the
/// punctuation-pause configuration.
pub struct Reader {
    words: Vec<String>,
    index: usize,
    wpm: u32,
    pauses: Pauses,
}

/// What a [`Reader`] holds, as plain values.
pub struct ReaderView {
    /// The characters of each word.
    pub words: Seq<Seq<char>>,
    /// The position of the current word; at or past the end once the text is
    /// exhausted.
    pub index: nat,
    /// Words per minute.
    pub wpm: nat,
    /// The punctuation pauses.
    pub pauses: Pauses,
}

impl View for Reader {
    type V = ReaderView;

    closed spec fn view(&self) -> ReaderView {
        ReaderView {
            words: views(self.words@),
            index: self.index as nat,
            wpm: self.wpm as nat,
            pauses: self.pauses,
        }
    }
}

/// How many words are left to show.
pub open spec fn words_left(v: ReaderView) -> nat {
    if v.index < v.words.len() {
        (v.words.len() - v.index) as nat
    } else {
        0
    }
}

/// The display time of the current word in nanoseconds, zero once the text
/// is exhausted.
pub open spec fn tick_nanos(v: ReaderView) -> nat {
    if v.index < v.words.len() {
        delay_nanos(v.words[v.index as int], v.wpm, v.pauses)
    } else {
        0
    }
}

/// The time left at the plain per-word speed, a minute over `wpm` for each
/// word left, in nanoseconds rounded to the nearest (halves up).
pub open spec fn remaining_nanos(v: ReaderView) -> nat
    recommends
        v.wpm > 0,
{
    (words_left(v) * 120_000_000_000 + v.wpm) / (2 * v.wpm)
}

/// One word back, staying on the first word.
pub open spec fn back(v: ReaderView) -> ReaderView {
    ReaderView {
        index: if v.index > 0 {
            (v.index - 1) as nat
        } else {
            0
        },
        ..v
    }
}

/// One word forward, staying on the last word.
pub open spec fn forward(v: ReaderView) -> ReaderView {
    ReaderView {
        index: if v.index + 1 < v.words.len() {
            v.index + 1
        } else {
            v.index
        },
        ..v
    }
}

/// The speed after speeding up by `step`, capped at the fastest speed.
pub open spec fn faster_wpm(wpm: nat, step: nat) -> nat {
    if wpm < MAX_WPM {
        if wpm + step >= MAX_WPM {
            MAX_WPM as nat
        } else {
            wpm + step
        }
    } else {
        wpm
    }
}

/// The speed after slowing down by `step`, floored at the slowest speed.
pub open spec fn slower_wpm(wpm: nat, step: nat) -> nat {
    if wpm > MIN_WPM {
        if wpm <= MIN_WPM + step {
            MIN_WPM as nat
        } else {
            (wpm - step) as nat
        }
    } else {
        wpm
    }
}

/// `after` and `r` are what the reader becomes and answers when it acts on
/// `control` from `before`, paused or playing, with speed step `step`:
/// quitting and toggling change nothing but the mode; speed keys work in
/// both modes; navigation works only while paused; a tick moves to the next
/// word only while playing.
pub open spec fn reacted(
    before: ReaderView,
    paused: bool,
    control: Control,
    step: nat,
    after: ReaderView,
    r: Step,
) -> bool {
    match control {
        Control::Quit => after == before && r == Step::Quit,
        Control::TogglePause => after == before && r == (Step::Continue {
            paused: !paused,
            restart: true,
        }),
        Control::Faster => after == (ReaderView { wpm: faster_wpm(before.wpm, step), ..before })
            && r == (Step::Continue { paused, restart: false }),
        Control::Slower => after == (ReaderView { wpm: slower_wpm(before.wpm, step), ..before })
            && r == (Step::Continue { paused, restart: false }),
        Control::Previous => after == (if paused {
            back(before)
        } else {
            before
        }) && r == (Step::Continue { paused, restart: false }),
        Control::Next => after == (if paused {
            forward(before)
        } else {
            before
        }) && r == (Step::Continue { paused, restart: false }),
        Control::Advance => if paused {
            after == before && r == (Step::Continue { paused, restart: false })
        } else {
            after == (ReaderView { index: before.index + 1, ..before }) && r == (Step::Continue {
                paused,
                restart: true,
            })
        },
    }
}

/// The words still to be shown, the current one first.
pub open spec fn words_to_come(v: ReaderView) -> Seq<Seq<char>> {
    if v.index < v.words.len() {
        v.words.skip(v.index as int)
    } else {
        Seq::empty()
    }
}

/// The display times of `words`, in nanoseconds, added up.
pub open spec fn total_delay(words: Seq<Seq<char>>, wpm: nat, pauses: Pauses) -> nat
    decreases words.len(),
{
    if words.len() == 0 {
        0
    } else {
        total_delay(words.drop_last(), wpm, pauses) + delay_nanos(words.last(), wpm, pauses)
    }
}

proof fn lemma_delay_at_least_plain(w: Seq<char>, wpm: nat, pauses: Pauses)
    requires
        wpm > 0,
        pauses.clause >= 1000,
        pauses.sentence >= 1000,
    ensures
        delay_nanos(w, wpm, pauses) * wpm >= 60_000_000_000,
{
    let scale = pause_scale(w, pauses);
    let d = delay_nanos(w, wpm, pauses);
    assert(scale >= 1000);
    assert(d * wpm >= 60_000_000_000) by (nonlinear_arith)
        requires
            scale >= 1000,
            wpm > 0,
            d == (60_000_000 * scale + wpm - 1) / (wpm as int),
    {
        let y: int = 60_000_000 * scale + wpm - 1;
        let ww: int = wpm as int;
        assert(y == d * ww + y % ww);
        assert(y % ww < ww);
    }
}

proof fn lemma_total_at_least(words: Seq<Seq<char>>, wpm: nat, pauses: Pauses)
    requires
        wpm > 0,
        pauses.clause >= 1000,
        pauses.sentence >= 1000,
    ensures
        total_delay(words, wpm, pauses) * wpm >= words.len() * 60_000_000_000,
    decreases words.len(),
{
    if words.len() > 0 {
        lemma_total_at_least(words.drop_last(), wpm, pauses);
        lemma_delay_at_least_plain(words.last(), wpm, pauses);
        let n = words.len();
        let t = total_delay(words.drop_last(), wpm, pauses);
        let d = delay_nanos(words.last(), wpm, pauses);
        assert((t + d) * wpm == t * wpm + d * wpm) by (nonlinear_arith);
        assert(n * 60_000_000_000 == (n - 1) * 60_000_000_000 + 60_000_000_000) by (nonlinear_arith);
    }
}

/// The time left shown on screen ignores punctuation pauses, so, whenever no
/// pause shortens a word, it is a lower bound on the real time left: the
/// display times of the words still to come, added up.
pub proof fn lemma_eta_is_lower_bound(v: ReaderView)
    requires
        v.wpm > 0,
        v.pauses.clause >= 1000,
        v.pauses.sentence >= 1000,
    ensures
        remaining_nanos(v) <= total_delay(words_to_come(v), v.wpm, v.pauses),
{
    let rest = words_to_come(v);
    let left = words_left(v);
    assert(rest.len() == left);
    lemma_total_at_least(rest, v.wpm, v.pauses);
    let total = total_delay(rest, v.wpm, v.pauses);
    let w = v.wpm;
    assert((left * 120_000_000_000 + w) / (2 * w) <= total) by (nonlinear_arith)
        requires
            w > 0,
            total * w >= left * 60_000_000_000,
    {
        let a: int = (left * 120_000_000_000 + w) as int;
        let m: int = (2 * w) as int;
        let q: int = a / m;
        assert(a == q * m + a % m);
        assert(a <= 2 * (total * w) + w);
        assert(q * (2 * w) <= 2 * total * w + w);
        if q > total {
            assert(q * (2 * w) >= (total + 1) * (2 * w));
        }
    }
}

/// The time left is a minute over `wpm` for each word left, rounded to the
/// nearest nanosecond (halves up): within half a nanosecond of the exact
/// value.
pub proof fn lemma_remaining_rounds_to_nearest(v: ReaderView)
    requires
        v.wpm > 0,
    ensures
        2 * v.wpm * remaining_nanos(v) <= words_left(v) * 120_000_000_000 + v.wpm,
        words_left(v) * 120_000_000_000 < 2 * v.wpm * remaining_nanos(v) + v.wpm,
{
    let a: int = (words_left(v) * 120_000_000_000) as int;
    let w: int = v.wpm as int;
    let r: int = remaining_nanos(v) as int;
    assert(2 * w * r <= a + w && a < 2 * w * r + w) by (nonlinear_arith)
        requires
            w > 0,
            a >= 0,
            r == (a + w) / (2 * w),
    {
        let m = 2 * w;
        let y = a + w;
        assert(y == r * m + y % m);
        assert(0 <= y % m < m);
    }
}

/// Speed changes keep the speed within the accepted range, never move it the
/// wrong way, and slowing down undoes a speed-up that was not capped.
pub proof fn lemma_speed_changes(wpm: nat, step: nat)
    ensures
        MIN_WPM <= wpm <= MAX_WPM ==> MIN_WPM <= faster_wpm(wpm, step) <= MAX_WPM,
        MIN_WPM <= wpm <= MAX_WPM ==> MIN_WPM <= slower_wpm(wpm, step) <= MAX_WPM,
        faster_wpm(wpm, step) >= wpm,
        slower_wpm(wpm, step) <= wpm,
        wpm > 0 ==> faster_wpm(wpm, step) > 0 && slower_wpm(wpm, step) > 0,
        MIN_WPM <= wpm && wpm + step < MAX_WPM ==> slower_wpm(faster_wpm(wpm, step), step)
            == wpm,
{
}

/// Moving back and forward undo each other away from the ends of the text.
pub proof fn lemma_back_and_forward(v: ReaderView)
    ensures
        0 < v.index < v.words.len() ==> forward(back(v)) == v,
        v.index + 1 < v.words.len() ==> back(forward(v)) == v,
        back(v).index <= v.index,
        forward(v).index >= v.index,
        v.index < v.words.len() ==> forward(v).index < v.words.len(),
{
}

/// Quitting does not depend on the mode: paused or playing, `Quit` leaves the
/// reader as it was and ends the loop. Toggling flips the mode and asks for a
/// new deadline in both modes, and changes nothing else.
pub proof fn lemma_quit_and_toggle(
    before: ReaderView,
    paused: bool,
    step: nat,
    after: ReaderView,
    r: Step,
    control: Control,
)
    requires
        reacted(before, paused, control, step, after, r),
    ensures
        control is Quit ==> r is Quit && after == before,
        control is TogglePause ==> after == before && (r matches Step::Continue {
            paused: p,
            restart,
        } && p == !paused && restart),
        !(control is Quit) ==> r is Continue,
        control is Faster ==> after.wpm >= before.wpm && after.index == before.index,
        control is Slower ==> after.wpm <= before.wpm && after.index == before.index,
        !paused && (control is Previous || control is Next) ==> after == before,
{
}

/// What the event loop does after a control.
#[derive(Clone, Copy, Debug)]
pub enum Step {
    /// Leave the reader.
    Quit,
    /// Go on, paused or playing; `restart` asks for a new deadline for the
    /// current word (a new word, or a change between paused and playing).
    Continue { paused: bool, restart: bool },
}

impl Reader {
    pub fn new(words: Vec<String>, wpm: u32, pauses: Pauses) -> (r: Self)
        ensures
            r@.words == views(words@),
            r@.index == 0,
            r@.wpm == wpm,
            r@.pauses == pauses,
    {
        Reader { words, index: 0, wpm, pauses }
    }

    /// The current word, or `None` once the text is exhausted.
    pub fn current(&self) -> (r: Option<&String>)
        ensures
            r is Some <==> self@.index < self@.words.len(),
            r matches Some(w) ==> w@ == self@.words[self@.index as int],
    {
        if self.index < self.words.len() {
            Some(&self.words[self.index])
        } else {
            None
        }
    }

    /// Moves to the next word.
    pub fn advance(&mut self)
        requires
            old(self)@.index < usize::MAX,
        ensures
            final(self)@.index == old(self)@.index + 1,
            final(self)@.words == old(self)@.words,
            final(self)@.wpm == old(self)@.wpm,
            final(self)@.pauses == old(self)@.pauses,
    {
        self.index += 1;
    }

    pub fn index(&self) -> (i: usize)
        ensures
            i == self@.index,
    {
        self.index
    }

    pub fn len(&self) -> (n: usize)
        ensures
            n == self@.words.len(),
    {
        self.words.len()
    }

    pub fn is_empty(&self) -> (b: bool)
        ensures
            b == (self@.words.len() == 0),
    {
        self.words.len() == 0
    }

    pub fn wpm(&self) -> (w: u32)
        ensures
            w == self@.wpm,
    {
        self.wpm
    }

    /// How long the current word should stay on screen, including any
    /// punctuation pause. Zero once the text is exhausted.
    pub fn tick(&self) -> (d: Duration)
        requires
            self@.index < self@.words.len() ==> self@.wpm > 0,
        ensures
            d == nanos(tick_nanos(self@) as u64),
    {
        if self.index < self.words.len() {
            word_delay(self.words[self.index].as_str(), self.wpm, self.pauses)
        } else {
            from_nanos(0)
        }
    }

    /// Estimated time left at the configured speed. This ignores punctuation
    /// pauses, so, as long as no pause is shorter than the plain time, it is a
    /// lower bound on the real remaining time (`lemma_eta_is_lower_bound`).
    pub fn remaining(&self) -> (d: Duration)
        requires
            self@.wpm > 0,
            remaining_nanos(self@) / 1_000_000_000 <= u64::MAX,
        ensures
            d == duration_of(
                (remaining_nanos(self@) / 1_000_000_000) as u64,
                (remaining_nanos(self@) % 1_000_000_000) as u32,
            ),
            whole_secs(d) == remaining_nanos(self@) / 1_000_000_000,
    {
        let left: u128 = if self.index < self.words.len() {
            (self.words.len() - self.index) as u128
        } else {
            0
        };
        assert(left * 120_000_000_000 <= 0xffff_ffff_ffff_ffff * 120_000_000_000)
            by (nonlinear_arith)
            requires
                left <= 0xffff_ffff_ffff_ffff,
        ;
        let w = self.wpm as u128;
        let total: u128 = (left * 120_000_000_000 + w) / (2 * w);
        let secs: u128 = total / 1_000_000_000;
        let sub: u128 = total % 1_000_000_000;
        new_duration(secs as u64, sub as u32)
    }

    /// Moves one word back, staying on the first word.
    pub fn retreat(&mut self)
        ensures
            final(self)@ == back(old(self)@),
    {
        if self.index > 0 {
            self.index -= 1;
        }
    }

    /// Moves one word forward, staying on the last word.
    pub fn step_forward(&mut self)
        ensures
            final(self)@ == forward(old(self)@),
    {
        if self.index < self.words.len() && self.words.len() - self.index > 1 {
            self.index += 1;
        }
    }

    /// Speeds up by `step` words per minute, up to the fastest speed; a speed
    /// already at or above it is left alone.
    pub fn faster(&mut self, step: u32)
        ensures
            final(self)@ == (ReaderView { wpm: faster_wpm(old(self)@.wpm, step as nat), ..old(self)@ }),
    {
        if self.wpm < MAX_WPM {
            if step >= MAX_WPM - self.wpm {
                self.wpm = MAX_WPM;
            } else {
                self.wpm = self.wpm + step;
            }
        }
    }

    /// Slows down by `step` words per minute, down to the slowest speed; a
    /// speed already at or below it is left alone.
    pub fn slower(&mut self, step: u32)
        ensures
            final(self)@ == (ReaderView { wpm: slower_wpm(old(self)@.wpm, step as nat), ..old(self)@ }),
    {
        if self.wpm > MIN_WPM {
            if step >= self.wpm - MIN_WPM {
                self.wpm = MIN_WPM;
            } else {
                self.wpm = self.wpm - step;
            }
        }
    }

    /// Acts on `control`, while paused or while playing, and says how the
    /// event loop goes on; speed keys change the speed by [`WPM_STEP`].
    pub fn react(&mut self, paused: bool, control: Control) -> (r: Step)
        requires
            !paused && control == Control::Advance ==> old(self)@.index < usize::MAX,
        ensures
            reacted(old(self)@, paused, control, WPM_STEP as nat, final(self)@, r),
            control is Quit ==> r is Quit && final(self)@ == old(self)@,
    {
        match control {
            Control::Quit => Step::Quit,
            Control::TogglePause => Step::Continue { paused: !paused, restart: true },
            Control::Faster => {
                self.faster(WPM_STEP);
                Step::Continue { paused, restart: false }
            },
            Control::Slower => {
                self.slower(WPM_STEP);
                Step::Continue { paused, restart: false }
            },
            Control::Previous => {
                if paused {
                    self.retreat();
                }
                Step::Continue { paused, restart: false }
            },
            Control::Next => {
                if paused {
                    self.step_forward();
                }
                Step::Continue { paused, restart: false }
            },
            Control::Advance => {
                if paused {
                    Step::Continue { paused, restart: false }
                } else {
                    self.advance();
                    Step::Continue { paused, restart: true }
                }
            },
        }
    }
}

} // verus!
