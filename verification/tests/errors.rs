use chordparser::parsing::parser_error::{ParserError, ParserErrors};
use chordparser::parsing::Parser;

fn errors_of(input: &str) -> Vec<ParserError> {
    let mut parser = Parser::new();
    match parser.parse(input) {
        Ok(chord) => panic!("Expected an error, got {:?}", chord),
        Err(e) => e.errors,
    }
}

#[test]
fn error_messages() {
    assert_eq!(ParserError::IllegalToken(2).to_string(), "Illegal token at position 2");
    assert_eq!(ParserError::MissingRootNote.to_string(), "Missing root note");
    assert_eq!(ParserError::DuplicateModifier("Maj".to_string()).to_string(), "Duplicate modifier: Maj");
    assert_eq!(ParserError::WrongExpressionTarget(3).to_string(), "Invalid expression target at position: 3");
    assert_eq!(ParserError::MissingAddTarget((1, 3)).to_string(), "Missing add target at position 4");
    assert_eq!(
        ParserError::IllegalOrMissingOmitTarget((2, 4)).to_string(),
        "Illegal or missing omit target at position 6"
    );
    assert_eq!(
        ParserError::ThreeConsecutiveSemitones(vec!["1".to_string(), "b9".to_string(), "9".to_string()]).to_string(),
        "Three consecutive semitones: [\"1\", \"b9\", \"9\"]"
    );
}

#[test]
fn error_positions() {
    assert_eq!(ParserError::MissingRootNote.error_position(), Some(1));
    assert_eq!(ParserError::IllegalAddTarget((2, 3)).error_position(), Some(5));
    assert_eq!(ParserError::NestedParenthesis(4).error_position(), Some(4));
    assert_eq!(ParserError::DuplicateModifier("Mi".to_string()).error_position(), None);
    assert_eq!(ParserError::ThreeConsecutiveSemitones(vec![]).error_position(), None);
}

#[test]
fn verbose_display_marks_the_position() {
    assert_eq!(ParserError::IllegalToken(2).verbose_display("CH7"), "Illegal token at position 2 → C{H}7");
    assert_eq!(ParserError::IllegalToken(5).verbose_display("C7"), "Illegal token at position 5 → C7{}");
    assert_eq!(ParserError::MissingAddTarget((1, 3)).verbose_display("Cadd"), "Missing add target at position 4 → Cad{d}");
    assert_eq!(ParserError::MissingRootNote.verbose_display("H"), "Missing root note");
}

#[test]
fn parser_errors_hold_their_list() {
    let e = ParserErrors::new(vec![ParserError::MissingRootNote]);
    assert_eq!(e.errors, vec![ParserError::MissingRootNote]);
}

#[test]
fn missing_root() {
    assert_eq!(errors_of(""), vec![ParserError::MissingRootNote]);
    assert_eq!(errors_of("H"), vec![ParserError::MissingRootNote]);
}

#[test]
fn parenthesis_errors() {
    assert_eq!(errors_of("C7(b9"), vec![ParserError::MissingClosingParenthesis(3)]);
    assert_eq!(errors_of("C7)"), vec![ParserError::UnexpectedClosingParenthesis(3)]);
}

#[test]
fn add_and_omit_without_target() {
    assert_eq!(errors_of("Cadd"), vec![ParserError::MissingAddTarget((1, 3))]);
    assert_eq!(errors_of("Comit"), vec![ParserError::IllegalOrMissingOmitTarget((1, 4))]);
}

#[test]
fn parser_recovers_after_an_error() {
    let mut parser = Parser::new();
    assert!(parser.parse("C7)").is_err());
    let chord = parser.parse("C7").expect("C7 parses after an error");
    assert_eq!(chord.normalized, "C7");
    let again = parser.parse("C7").expect("C7 parses twice");
    assert_eq!(chord, again);
}

#[test]
fn message_errors_hold_their_messages() {
    let e = chordparser::parser_error::ParserErrors::new(vec!["Missing root note".to_string()]);
    assert_eq!(e.errors, vec!["Missing root note".to_string()]);
}

#[test]
fn repeated_kinds_and_bad_additions_are_rejected() {
    for input in ["Csus2sus4", "C/E/G", "Cmimi7", "Cadd b3", "C(omit9)"] {
        let mut parser = Parser::new();
        assert!(parser.parse(input).is_err(), "{} should be rejected", input);
    }
}
