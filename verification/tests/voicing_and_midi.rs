use chordparser::chord::interval::Interval;
use chordparser::chord::note::{Note, NoteLiteral};
use chordparser::midi::{chord_events, MidiEvent, MidiEventKind};
use chordparser::parsing::Parser;
use chordparser::voicings::{midi_codes_voicing, MidiNote};

fn parse(input: &str) -> chordparser::chord::Chord {
    Parser::new().parse(input).expect("chord parses")
}

#[test]
fn midi_note_candidates() {
    let n = MidiNote::new(&Note::new(NoteLiteral::C, None), Interval::Unison);
    assert_eq!(n.base, 0);
    assert_eq!(n.available, vec![60, 72]);
    let g = MidiNote::new(&Note::new(NoteLiteral::G, None), Interval::PerfectFifth);
    assert_eq!(g.base, 7);
    assert_eq!(g.available, vec![55, 67, 79]);
}

#[test]
fn voicing_of_c_major() {
    assert_eq!(midi_codes_voicing(&parse("C"), None), vec![36, 52, 79]);
}

#[test]
fn voicing_of_c_major_seventh_with_lead() {
    assert_eq!(midi_codes_voicing(&parse("Cmaj7"), Some(74)), vec![36, 59, 67, 76]);
}

#[test]
fn chord_midi_codes() {
    assert_eq!(parse("C").to_midi_codes(), vec![36, 52, 55]);
    assert_eq!(parse("C/E").to_midi_codes(), vec![40, 48, 52, 55]);
}

#[test]
fn chord_track_events() {
    let on = |key: u8, vel: u8| MidiEvent { delta: 0, kind: MidiEventKind::NoteOn { key, vel } };
    let off = |delta: u32, key: u8, vel: u8| MidiEvent { delta, kind: MidiEventKind::NoteOff { key, vel } };
    let events = chord_events(&[60, 64, 200]);
    assert_eq!(
        events,
        vec![
            on(60, 64),
            on(64, 61),
            on(72, 58),
            off(3200, 60, 64),
            off(0, 64, 61),
            off(0, 72, 58),
            MidiEvent { delta: 0, kind: MidiEventKind::EndOfTrack },
            MidiEvent { delta: 0, kind: MidiEventKind::Tempo(1000) },
        ]
    );
}

#[test]
fn empty_chord_track() {
    assert_eq!(chord_events(&[]).len(), 2);
}

#[test]
fn voicings_stay_between_c1_and_g4() {
    let chords = ["C", "Cmaj7", "Ebmi9/Bb", "F#7(b9,#11)", "Abadd9", "G13sus", "Bbdim7", "D/F#", "E7alt"];
    let leads = [None, Some(40), Some(65), Some(74), Some(79), Some(100)];
    for c in chords {
        let chord = parse(c);
        for lead in leads {
            let v = midi_codes_voicing(&chord, lead);
            let (last, body) = v.split_last().expect("a voicing ends with its lead");
            for code in body {
                assert!((36..=79).contains(code), "{} with lead {:?} gives {}", c, lead, code);
            }
            assert!(*last == 0 || (51..=79).contains(last), "{} with lead {:?} leads {}", c, lead, last);
        }
    }
}
