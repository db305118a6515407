//! The events of a MIDI track that sounds a chord.
//!
//! All notes start together; after the note duration they all stop, the first note-off event
//! carrying the delay. Each note is a little softer than the one before. The track ends, and
//! then states its tempo.
use vstd::prelude::*;

verus! {

/// The velocity of the first note.
pub const VELOCITY: u8 = 64;

/// The duration of the chord, in ticks.
pub const NOTE_DURATION: u32 = 3200;

/// The tempo, in microseconds per beat.
pub const TEMPO: u32 = 1000;

/// The ticks per beat of the track.
pub const TICKS_PER_BEAT: u16 = 800;

/// What a track event does.
#[derive(Debug, Clone, Copy, PartialEq, Eq, Structural)]
pub enum MidiEventKind {
    NoteOn { key: u8, vel: u8 },
    NoteOff { key: u8, vel: u8 },
    EndOfTrack,
    Tempo(u32),
}

/// A track event: its delay after the one before, in ticks, and what it does.
#[derive(Debug, Clone, Copy, PartialEq, Eq, Structural)]
pub struct MidiEvent {
    pub delta: u32,
    pub kind: MidiEventKind,
}

/// A byte as a 7-bit MIDI number: its top bit is dropped.
pub open spec fn seven_bits(v: int) -> u8 {
    (v % 128) as u8
}

/// The most notes a chord track can hold: past it the velocity step would exceed the first
/// velocity.
pub const MAX_CHORD_NOTES: usize = 22;

/// The velocity of the `i`-th note: three less than the one before.
pub open spec fn velocity_of(i: int) -> u8 {
    (64 - 3 * i) as u8
}

/// The events that sound the notes `keys` together.
pub open spec fn spec_chord_events(keys: Seq<u8>) -> Seq<MidiEvent> {
    let n = keys.len() as int;
    Seq::new(
        keys.len(),
        |i: int| MidiEvent { delta: 0, kind: MidiEventKind::NoteOn { key: seven_bits(keys[i] as int), vel: velocity_of(i) } },
    ) + Seq::new(
        keys.len(),
        |i: int|
            MidiEvent {
                delta: if i == 0 { NOTE_DURATION } else { 0 },
                kind: MidiEventKind::NoteOff { key: seven_bits(keys[i] as int), vel: velocity_of(i) },
            },
    ) + seq![
        MidiEvent { delta: 0, kind: MidiEventKind::EndOfTrack },
        MidiEvent { delta: 0, kind: MidiEventKind::Tempo(TEMPO) },
    ]
}

fn velocity(i: usize) -> (r: u8)
    requires
        i < MAX_CHORD_NOTES,
    ensures
        r == velocity_of(i as int),
{
    let step: u8 = 3 * (i as u8);
    VELOCITY - step
}

/// The events of a track that sounds `chord_notes` as a chord.
pub fn chord_events(chord_notes: &[u8]) -> (r: Vec<MidiEvent>)
    requires
        chord_notes@.len() <= MAX_CHORD_NOTES,
    ensures
        r@ == spec_chord_events(chord_notes@),
{
    let n = chord_notes.len();
    let mut events: Vec<MidiEvent> = Vec::new();
    let mut i: usize = 0;
    while i < n
        invariant
            n == chord_notes@.len(),
            i <= n,
            n <= MAX_CHORD_NOTES,
            events@ == spec_chord_events(chord_notes@).take(i as int),
        decreases n - i,
    {
        let vel = velocity(i);
        events.push(MidiEvent { delta: 0, kind: MidiEventKind::NoteOn { key: chord_notes[i] % 128, vel } });
        assert(events@ =~= spec_chord_events(chord_notes@).take(i + 1));
        i = i + 1;
    }
    let mut i: usize = 0;
    while i < n
        invariant
            n == chord_notes@.len(),
            i <= n,
            n <= MAX_CHORD_NOTES,
            events@ == spec_chord_events(chord_notes@).take(n + i),
        decreases n - i,
    {
        let vel = velocity(i);
        let delta = if i == 0 { NOTE_DURATION } else { 0 };
        events.push(MidiEvent { delta, kind: MidiEventKind::NoteOff { key: chord_notes[i] % 128, vel } });
        assert(events@ =~= spec_chord_events(chord_notes@).take(n + i + 1));
        i = i + 1;
    }
    events.push(MidiEvent { delta: 0, kind: MidiEventKind::EndOfTrack });
    events.push(MidiEvent { delta: 0, kind: MidiEventKind::Tempo(TEMPO) });
    assert(events@ =~= spec_chord_events(chord_notes@));
    events
}

} // verus!
