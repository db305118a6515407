use chordparser::parsing::ast::Ast;
use chordparser::parsing::evaluator::{Descriptor, Evaluator};
use chordparser::chord::interval::Interval;
use chordparser::chord::Chord;
use chordparser::chord::note::{Note, NoteLiteral, NoteModifier};
use chordparser::parsing::Parser;
use chordparser::text::{push_decimal, replace_all, str_eq};

#[test]
fn replace_all_replaces_every_match() {
    assert_eq!(replace_all("#5#5", "#5", "+5"), "+5+5");
    assert_eq!(replace_all("abc", "x", "y"), "abc");
    assert_eq!(replace_all("aaa", "aa", "b"), "ba");
}

#[test]
fn decimal_and_equality() {
    let mut s = String::from("n=");
    push_decimal(&mut s, 1203);
    assert_eq!(s, "n=1203");
    assert!(str_eq("Cmaj7", "Cmaj7"));
    assert!(!str_eq("Cmaj7", "Cmaj9"));
}

#[test]
fn transpose_dominant_seventh() {
    let chord = Parser::new().parse("C7").expect("C7 parses");
    let t = chord.transpose(&Note::new(NoteLiteral::D, None));
    assert_eq!(t.origin, "D7");
    assert_eq!(t.note_literals(), vec!["D", "F#", "A", "C"]);
    assert_eq!(t.intervals, chord.intervals);
}

#[test]
fn transpose_keeps_sharp_fifth_readable() {
    let chord = Parser::new().parse("C##5").expect("C##5 parses");
    assert_eq!(chord.descriptor, "#5");
    let t = chord.transpose(&Note::new(NoteLiteral::E, Some(NoteModifier(-1))));
    assert_eq!(t.origin, "Eb+5");
}

#[test]
fn transpose_keeps_the_quality() {
    let chord = Parser::new().parse("C7").expect("C7 parses");
    let t = chord.transpose(&Note::new(NoteLiteral::D, None));
    assert_eq!(t.quality, chord.quality);
    assert_eq!(t.quality, chordparser::chord::quality::ChordQuality::Dominant7);
}

#[test]
fn transpose_keeps_the_whole_descriptor() {
    let chord = Parser::new().parse("C##5b9").expect("C##5b9 parses");
    assert_eq!(chord.descriptor, "#5b9");
    let t = chord.transpose(&Note::new(NoteLiteral::D, None));
    assert_eq!(t.origin, "D+5b9");
    let again = Parser::new().parse(&t.origin).expect("D+5b9 parses");
    assert_eq!(again.intervals, chord.intervals);
}

#[test]
fn descriptor_is_what_follows_the_root() {
    let mut parser = Parser::new();
    assert_eq!(parser.parse("C/C").expect("C/C parses").descriptor, "/C");
    assert_eq!(parser.parse("Eb7/Eb").expect("Eb7/Eb parses").descriptor, "7/Eb");
    assert_eq!(parser.parse(" C+susMaj76").expect("parses").descriptor, " +susMaj76");
}

#[test]
fn normalized_name_keeps_the_bass_accidental() {
    let mut parser = Parser::new();
    assert_eq!(parser.parse("C/Bb").expect("C/Bb parses").normalized, "C/Bb");
    assert_eq!(parser.parse("C/A").expect("C/A parses").normalized, "C/A");
}

#[test]
fn transpose_to_a_double_sharp() {
    let chord = Parser::new().parse("C7").expect("C7 parses");
    let t = chord.transpose(&Note::new(NoteLiteral::F, Some(NoteModifier(2))));
    assert_eq!(t.note_literals(), vec!["F𝄪", "A𝄪", "C𝄪", "E#"]);
}

#[test]
fn midi_codes_of_a_wide_accidental() {
    let root = Note::new(NoteLiteral::C, Some(NoteModifier(-13)));
    let chord = Chord::builder("C", root)
        .normalized_intervals(vec![Interval::Unison, Interval::MajorThird])
        .build();
    assert_eq!(chord.to_midi_codes(), vec![35, 51]);
}

fn descriptor_with_root(root: Note, name: &str) -> String {
    let ast = Ast { root, expressions: vec![] };
    let ev = Evaluator { ast: &ast, dc: Descriptor::new(), is_valid: false, errors: vec![], name: String::new() };
    ev.descriptor(name)
}

#[test]
fn descriptor_takes_out_the_written_root() {
    assert_eq!(descriptor_with_root(Note::new(NoteLiteral::C, Some(NoteModifier(0))), "C7"), "7");
    assert_eq!(descriptor_with_root(Note::new(NoteLiteral::C, Some(NoteModifier(3))), "C(3)#7"), "7");
    assert_eq!(descriptor_with_root(Note::new(NoteLiteral::C, None), "C7"), "7");
    assert_eq!(descriptor_with_root(Note::new(NoteLiteral::D, Some(NoteModifier(-1))), "Db7"), "7");
    assert_eq!(descriptor_with_root(Note::new(NoteLiteral::C, Some(NoteModifier(1))), "C♯7"), "7");
    let mut parser = Parser::new();
    assert_eq!(parser.parse("C♯m7").expect("C♯m7 parses").descriptor, "m7");
    assert_eq!(parser.parse("Ebmaj7").expect("Ebmaj7 parses").descriptor, "maj7");
}

#[test]
fn transpose_an_empty_chord_with_an_unusual_root() {
    let chord = Chord::builder("B", Note::new(NoteLiteral::B, Some(NoteModifier(127)))).build();
    let t = chord.transpose(&Note::new(NoteLiteral::C, None));
    assert_eq!(t.origin, "C");
    assert!(t.notes.is_empty());
}
