# rscat

A terminal RSVP (Rapid Serial Visual Presentation) speed-reader: words are
streamed one at a time, anchored on their Optimal Recognition Point.

The library under `src/` is written in Verus and verified:

- `text`: splitting text into words on Unicode whitespace;
- `orp`: the pivot letter of a word and splitting a word around it;
- `timing`: per-word display time with punctuation pauses, the `m:ss` /
  `h:mm:ss` time-left format;
- `frequency`: in-text word counts under a case- and punctuation-insensitive key;
- `control`: mapping key presses to reader controls;
- `app`: the `Reader` state and how it reacts to each control;
- `ui`: where the word line starts, font heights and the status line;
- `chars`, `clock`, `decimal`: character classes, durations and number
  rendering the rest builds on.

Display times are kept to the nanosecond: each word's time is a minute over
the speed, scaled by its punctuation pause and rounded up; the time left is a
minute over the speed per word left, rounded to the nearest. The time left is
proved to be a lower bound on the display times still to come whenever no
pause shortens a word.

`app/` is the terminal program around it: argument parsing with clap, file
and terminal I/O, drawing with ratatui and tui-big-text (pixel fonts and the
`--ghost` overlay), and the floating-point length and rarity terms, which
scale the verified per-word time. Pause multipliers, which the command line
takes as decimals, are held by the library in thousandths.
