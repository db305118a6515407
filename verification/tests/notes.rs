use chordparser::chord::interval::Interval;
use chordparser::chord::note::{Note, NoteLiteral, NoteModifier, RootModifier};

#[test]
fn literal_from_string_and_index() {
    assert_eq!(NoteLiteral::from_string("G"), NoteLiteral::G);
    assert_eq!(NoteLiteral::from_string("B"), NoteLiteral::B);
    assert_eq!(NoteLiteral::from_string("H"), NoteLiteral::C);
    assert_eq!(NoteLiteral::from_u8(9), NoteLiteral::E);
    assert_eq!(NoteLiteral::from_u8(6), NoteLiteral::B);
    assert_eq!(NoteLiteral::A.natural_semitone(), 9);
    assert_eq!(NoteLiteral::F.natural_semitone(), 5);
}

#[test]
fn modifier_text_round_trip() {
    let cases = [
        (NoteLiteral::A, Some(NoteModifier(-1)), "Ab"),
        (NoteLiteral::F, Some(NoteModifier(2)), "F𝄪"),
        (NoteLiteral::E, None, "E"),
        (NoteLiteral::E, Some(NoteModifier(-2)), "E𝄫"),
        (NoteLiteral::B, Some(NoteModifier(-4)), "B(-4)b"),
        (NoteLiteral::D, Some(NoteModifier(5)), "D(5)#"),
    ];
    for (lit, modif, display_str) in cases {
        let note = Note::new(lit, modif);
        assert_eq!(note.to_string(), display_str);
        if let Some(m) = modif {
            assert_eq!(NoteModifier::from_str(&m.to_string()), Ok(m));
        }
    }
}

#[test]
fn modifier_from_custom_strings() {
    assert_eq!(NoteModifier::from_str("(3)#"), Ok(NoteModifier(3)));
    assert_eq!(NoteModifier::from_str("(-4)b"), Ok(NoteModifier(-4)));
    assert_eq!(NoteModifier::from_str("(+3)b"), Ok(NoteModifier(3)));
    assert_eq!(NoteModifier::from_str("#"), Ok(NoteModifier(1)));
    assert_eq!(NoteModifier::from_str("b"), Ok(NoteModifier(-1)));
    assert_eq!(NoteModifier::from_str("𝄪"), Ok(NoteModifier(2)));
    assert_eq!(NoteModifier::from_str("𝄫"), Ok(NoteModifier(-2)));
    assert_eq!(NoteModifier::from_str(""), Ok(NoteModifier(0)));
}

#[test]
fn modifier_from_bad_strings() {
    assert_eq!(NoteModifier::from_str("x"), Err("Invalid modifier format: x".to_string()));
    assert_eq!(NoteModifier::from_str("(3"), Err("Missing closing parenthesis".to_string()));
    assert_eq!(NoteModifier::from_str("(a)#"), Err("Invalid number in modifier: a".to_string()));
    assert_eq!(NoteModifier::from_str("(300)#"), Err("Invalid number in modifier: 300".to_string()));
    assert_eq!(NoteModifier::from_str("()#"), Err("Invalid number in modifier: ".to_string()));
    assert_eq!(NoteModifier::from_str("(3)x"), Err("Invalid suffix after parenthesis: x".to_string()));
    assert_eq!(NoteModifier::from_str("(3)"), Err("Invalid suffix after parenthesis: ".to_string()));
}

#[test]
fn modifier_from_root_modifier() {
    assert_eq!(NoteModifier::from(RootModifier::Sharp), NoteModifier(1));
    assert_eq!(NoteModifier::from(RootModifier::Flat), NoteModifier(-1));
}

#[test]
fn note_semitones_and_midi_codes() {
    assert_eq!(Note::new(NoteLiteral::C, Some(NoteModifier(-1))).to_semitone(), 11);
    assert_eq!(Note::new(NoteLiteral::B, Some(NoteModifier(1))).to_semitone(), 0);
    assert_eq!(Note::new(NoteLiteral::E, None).to_semitone(), 4);
    assert_eq!(Note::new(NoteLiteral::C, None).to_midi_code(), 48);
    assert_eq!(Note::new(NoteLiteral::B, Some(NoteModifier(1))).to_midi_code(), 48);
    assert_eq!(Note::new(NoteLiteral::A, None).to_midi_code(), 57);
}

#[test]
fn note_get_note_spells_by_degree() {
    let bb = Note::new(NoteLiteral::B, Some(NoteModifier(-1)));
    assert_eq!(bb.get_note(4, 3), Note::new(NoteLiteral::D, None));
    let b_sharp = Note::new(NoteLiteral::B, Some(NoteModifier(1)));
    assert_eq!(b_sharp.get_note(14, 9), Note::new(NoteLiteral::C, Some(NoteModifier(2))));
    let c = Note::new(NoteLiteral::C, None);
    assert_eq!(c.get_note(6, 5), Note::new(NoteLiteral::G, Some(NoteModifier(-1))));
}

#[test]
fn note_transpose_keeps_the_distance() {
    let c = Note::new(NoteLiteral::C, None);
    let d = Note::new(NoteLiteral::D, None);
    let e = Note::new(NoteLiteral::E, None);
    assert_eq!(c.transpose(&e, &d), Note::new(NoteLiteral::F, Some(NoteModifier(1))));
    let eb = Note::new(NoteLiteral::E, Some(NoteModifier(-1)));
    assert_eq!(c.transpose(&e, &eb), Note::new(NoteLiteral::G, None));
}

#[test]
fn interval_notation() {
    assert_eq!(Interval::MinorSeventh.st(), 10);
    assert_eq!(Interval::FlatThirteenth.st(), 20);
    assert_eq!(Interval::SharpEleventh.to_chord_notation(), "#11");
    assert_eq!(Interval::from_chord_notation("b9"), Some(Interval::FlatNinth));
    assert_eq!(Interval::from_chord_notation("x"), None);
}
