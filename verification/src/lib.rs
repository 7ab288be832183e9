//! An RSVP speed-reading core: word timing, Optimal Recognition Point,
//! tokenizing, in-text word frequencies and the reader's state machine.

pub mod orp;
pub mod chars;
pub mod text;
pub mod decimal;
pub mod clock;
pub mod timing;
pub mod frequency;
pub mod control;
pub mod app;
pub mod ui;
