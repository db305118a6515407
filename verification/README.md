# chordparser

A verified library for parsing, normalizing, transposing and inferring musical chord symbols
in standard English pop, rock and jazz notation (`C7(b9,#11)`, `Ebmi9/Bb`, `F#sus4` ...).

`src/` is the library, written in Verus: every function carries a contract over a
mathematical model of its inputs and outputs, and Verus proves it.

- `chord/` — notes, accidentals, intervals, pitch classes, chord qualities and the `Chord`
  value itself (transposition, MIDI codes).
- `parsing/` — the lexer, the token pre-processing, the parser state machine, the expression
  evaluator, the validator, the name normalizer and the error type; `parsing/laws.rs` holds
  what holds of every accepted and every rejected symbol.
- `inference/` — naming the chords that a set of MIDI codes can be heard as.
- `voicings.rs` — a playable voicing of a chord around a lead note.
- `midi.rs` — the events of a MIDI track that sounds a chord.
- `bits.rs`, `text.rs` — bit sets and decimal text.

`app/` is plain Rust around the library: serde copies of the chord and error types, JSON
output, and writing MIDI files with `midly`.

`tests/` runs the library on concrete chords.
