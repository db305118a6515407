//! Notes: letters, accidentals and their pitches.
use crate::text::str_eq;
use crate::text::{push_signed_decimal, signed_decimal};
use vstd::prelude::*;

verus! {

/// The seven note letters.
#[derive(Debug, Clone, Copy, PartialEq, Eq, Structural, Hash)]
pub enum NoteLiteral {
    C,
    D,
    E,
    F,
    G,
    A,
    B,
}

/// Position of a letter, from C (0) to B (6).
pub open spec fn literal_index(l: NoteLiteral) -> u8 {
    match l {
        NoteLiteral::C => 0,
        NoteLiteral::D => 1,
        NoteLiteral::E => 2,
        NoteLiteral::F => 3,
        NoteLiteral::G => 4,
        NoteLiteral::A => 5,
        NoteLiteral::B => 6,
    }
}

/// The letter at position `n` modulo 7.
pub open spec fn literal_at(n: int) -> NoteLiteral {
    let k = n % 7;
    if k == 0 { NoteLiteral::C }
    else if k == 1 { NoteLiteral::D }
    else if k == 2 { NoteLiteral::E }
    else if k == 3 { NoteLiteral::F }
    else if k == 4 { NoteLiteral::G }
    else if k == 5 { NoteLiteral::A }
    else { NoteLiteral::B }
}

/// Semitones from C of a natural note.
pub open spec fn spec_natural_semitone(l: NoteLiteral) -> u8 {
    match l {
        NoteLiteral::C => 0,
        NoteLiteral::D => 2,
        NoteLiteral::E => 4,
        NoteLiteral::F => 5,
        NoteLiteral::G => 7,
        NoteLiteral::A => 9,
        NoteLiteral::B => 11,
    }
}

/// The name of a letter.
pub open spec fn literal_text(l: NoteLiteral) -> Seq<char> {
    match l {
        NoteLiteral::C => "C"@,
        NoteLiteral::D => "D"@,
        NoteLiteral::E => "E"@,
        NoteLiteral::F => "F"@,
        NoteLiteral::G => "G"@,
        NoteLiteral::A => "A"@,
        NoteLiteral::B => "B"@,
    }
}

/// The letter a name gives; any name but `C`..`B` gives C.
pub open spec fn spec_literal_from(s: Seq<char>) -> NoteLiteral {
    if s == "C"@ { NoteLiteral::C }
    else if s == "D"@ { NoteLiteral::D }
    else if s == "E"@ { NoteLiteral::E }
    else if s == "F"@ { NoteLiteral::F }
    else if s == "G"@ { NoteLiteral::G }
    else if s == "A"@ { NoteLiteral::A }
    else if s == "B"@ { NoteLiteral::B }
    else { NoteLiteral::C }
}

impl NoteLiteral {
    /// The letter named by `i`; an unknown name gives C.
    pub fn from_string(i: &str) -> (r: NoteLiteral)
        ensures
            r == spec_literal_from(i@),
    {
        if str_eq(i, "C") { NoteLiteral::C }
        else if str_eq(i, "D") { NoteLiteral::D }
        else if str_eq(i, "E") { NoteLiteral::E }
        else if str_eq(i, "F") { NoteLiteral::F }
        else if str_eq(i, "G") { NoteLiteral::G }
        else if str_eq(i, "A") { NoteLiteral::A }
        else if str_eq(i, "B") { NoteLiteral::B }
        else { NoteLiteral::C }
    }

    /// The letter at position `n` modulo 7, C being 0.
    pub fn from_u8(n: u8) -> (r: NoteLiteral)
        ensures
            r == literal_at(n as int),
            literal_index(r) == n % 7,
    {
        let k = n % 7;
        if k == 0 { NoteLiteral::C }
        else if k == 1 { NoteLiteral::D }
        else if k == 2 { NoteLiteral::E }
        else if k == 3 { NoteLiteral::F }
        else if k == 4 { NoteLiteral::G }
        else if k == 5 { NoteLiteral::A }
        else { NoteLiteral::B }
    }

    /// Position of the letter, from C (0) to B (6).
    pub fn index(&self) -> (r: u8)
        ensures
            r == literal_index(*self),
            r < 7,
    {
        match self {
            NoteLiteral::C => 0,
            NoteLiteral::D => 1,
            NoteLiteral::E => 2,
            NoteLiteral::F => 3,
            NoteLiteral::G => 4,
            NoteLiteral::A => 5,
            NoteLiteral::B => 6,
        }
    }

    /// Returns the semitones from C in a natural major scale (C=0, D=2, E=4...).
    pub fn natural_semitone(&self) -> (r: u8)
        ensures
            r == spec_natural_semitone(*self),
            r < 12,
    {
        match self {
            NoteLiteral::C => 0,
            NoteLiteral::D => 2,
            NoteLiteral::E => 4,
            NoteLiteral::F => 5,
            NoteLiteral::G => 7,
            NoteLiteral::A => 9,
            NoteLiteral::B => 11,
        }
    }

    /// The name of the letter.
    pub fn as_str(&self) -> (r: &'static str)
        ensures
            r@ == literal_text(*self),
    {
        match self {
            NoteLiteral::C => "C",
            NoteLiteral::D => "D",
            NoteLiteral::E => "E",
            NoteLiteral::F => "F",
            NoteLiteral::G => "G",
            NoteLiteral::A => "A",
            NoteLiteral::B => "B",
        }
    }
}

/// Any accidental: the number of semitones a note is raised (positive) or lowered (negative).
#[derive(Debug, Clone, Copy, PartialEq, Eq, Structural, PartialOrd, Ord, Hash)]
pub struct NoteModifier(pub i8);

/// How an accidental is written: nothing, `#`, `b`, `𝄪`, `𝄫`, or `(n)#` / `(n)b` beyond a double.
pub open spec fn modifier_text(m: i8) -> Seq<char> {
    if m == 0 { Seq::<char>::empty() }
    else if m == 1 { "#"@ }
    else if m == -1 { "b"@ }
    else if m == 2 { "𝄪"@ }
    else if m == -2 { "𝄫"@ }
    else if m > 2 { "("@ + signed_decimal(m as int) + ")#"@ }
    else { "("@ + signed_decimal(m as int) + ")b"@ }
}

impl NoteModifier {
    /// The written form of the accidental.
    pub fn to_string(&self) -> (r: String)
        ensures
            r@ == modifier_text(self.0),
    {
        let m = self.0;
        let mut s = String::new();
        if m == 0 {
        } else if m == 1 {
            s.append("#");
        } else if m == -1 {
            s.append("b");
        } else if m == 2 {
            s.append("𝄪");
        } else if m == -2 {
            s.append("𝄫");
        } else {
            s.append("(");
            push_signed_decimal(&mut s, m);
            if m > 2 {
                s.append(")#");
                assert(s@ =~= "("@ + signed_decimal(m as int) + ")#"@);
            } else {
                s.append(")b");
                assert(s@ =~= "("@ + signed_decimal(m as int) + ")b"@);
            }
        }
        s
    }
}

/// The accidental allowed on a chord root: a single sharp or flat.
#[derive(Debug, Clone, Copy, PartialEq, Eq, Structural, PartialOrd, Ord, Hash)]
pub enum RootModifier {
    Sharp,
    Flat,
}

/// The accidental value of a root accidental.
pub open spec fn root_modifier_value(m: RootModifier) -> i8 {
    match m {
        RootModifier::Sharp => 1i8,
        RootModifier::Flat => -1i8,
    }
}

impl RootModifier {
    /// The written form of the accidental.
    pub fn as_str(&self) -> (r: &'static str)
        ensures
            r@ == modifier_text(root_modifier_value(*self)),
    {
        match self {
            RootModifier::Sharp => "#",
            RootModifier::Flat => "b",
        }
    }

    /// The general accidental this root accidental stands for.
    pub fn to_note_modifier(&self) -> (r: NoteModifier)
        ensures
            r.0 == root_modifier_value(*self),
    {
        match self {
            RootModifier::Sharp => NoteModifier(1),
            RootModifier::Flat => NoteModifier(-1),
        }
    }
}

/// A note: a letter and an optional accidental.
#[derive(Debug, Clone, Copy, PartialEq, Eq, Structural, Hash)]
pub struct Note {
    pub literal: NoteLiteral,
    pub modifier: Option<NoteModifier>,
}

/// The accidental value of a note, 0 when it has none.
pub open spec fn offset_of(n: Note) -> int {
    match n.modifier {
        Some(m) => m.0 as int,
        None => 0,
    }
}

/// Rust's remainder, which keeps the sign of the dividend.
pub open spec fn trunc_rem(v: int, d: int) -> int {
    if v >= 0 {
        v % d
    } else {
        -((-v) % d)
    }
}

/// Reinterprets an integer in -128..=255 as a byte, as `as u8` does.
pub open spec fn wrap_u8(v: int) -> int {
    if v < 0 {
        v + 256
    } else {
        v
    }
}

/// Whether computing a note's pitch stays within a signed byte.
pub open spec fn semitone_defined(n: Note) -> bool {
    -128 <= spec_natural_semitone(n.literal) + offset_of(n) + 12 <= 127
}

/// The pitch class of a note (0 for C .. 11 for B) as the library computes it.
/// For accidentals below -12 - natural semitone it wraps into 244..=255.
pub open spec fn spec_to_semitone(n: Note) -> int {
    wrap_u8(trunc_rem(spec_natural_semitone(n.literal) + offset_of(n) + 12, 12))
}

/// Whether a note's accidental keeps it within an octave of its letter, so that its pitch
/// class is an ordinary 0..12 value.
pub open spec fn regular(n: Note) -> bool {
    -12 <= offset_of(n) <= 12
}

/// The accidental that moves `natural` to `goal`, folded into -6..=6.
pub open spec fn spelled_offset(goal: int, natural: int) -> int {
    let o = goal - natural;
    if o > 6 {
        o - 12
    } else if o < -6 {
        o + 12
    } else {
        o
    }
}

/// The note at `semitones` above `root` spelled on the letter of degree `degree`.
pub open spec fn spec_get_note(root: Note, semitones: int, degree: int) -> Note {
    let target = literal_at(literal_index(root.literal) + degree - 1);
    let goal = (spec_to_semitone(root) + semitones) % 12;
    let off = spelled_offset(goal, spec_natural_semitone(target) as int);
    Note {
        literal: target,
        modifier: if off == 0 { None } else { Some(NoteModifier(off as i8)) },
    }
}

/// The written form of a note.
pub open spec fn note_text(n: Note) -> Seq<char> {
    literal_text(n.literal) + match n.modifier {
        Some(m) => modifier_text(m.0),
        None => Seq::<char>::empty(),
    }
}

/// The MIDI code of a note in the octave below middle C (C = 48).
pub open spec fn spec_midi_code(n: Note) -> int {
    let v = 48 + (if spec_to_semitone(n) > 127 { spec_to_semitone(n) - 256 } else { spec_to_semitone(n) });
    wrap_u8(v)
}

/// A note's pitch class read as a signed byte: the wrapped values 244..=255 count as
/// -12..=-1.
pub open spec fn signed_semitone(n: Note) -> int {
    if spec_to_semitone(n) > 127 { spec_to_semitone(n) - 256 } else { spec_to_semitone(n) }
}

/// The pitch distance from one note to another as a transposition counts it: the difference
/// of their signed pitch classes, plus 12, with Rust's remainder by 12.
pub open spec fn pitch_distance(from: Note, to: Note) -> int {
    trunc_rem(signed_semitone(to) - signed_semitone(from) + 12, 12)
}

/// The number of letters from one note up to another, 0..=6.
pub open spec fn letter_distance(from: Note, to: Note) -> int {
    (literal_index(to.literal) - literal_index(from.literal) + 7) % 7
}

/// A note spelled for a pitch sounds that pitch: `get_note` on a note with an ordinary
/// accidental gives the letter of the requested degree and the pitch class `semitones` above
/// the root, with an accidental of at most a tritone.
pub proof fn lemma_get_note_pitch(root: Note, semitones: int, degree: int)
    requires
        regular(root),
        semitones >= 0,
        degree >= 1,
    ensures
        spec_get_note(root, semitones, degree).literal == literal_at(literal_index(root.literal) + degree - 1),
        regular(spec_get_note(root, semitones, degree)),
        spec_to_semitone(spec_get_note(root, semitones, degree)) == (spec_to_semitone(root) + semitones) % 12,
{
    let r = spec_get_note(root, semitones, degree);
    let goal = (spec_to_semitone(root) + semitones) % 12;
    let natural = spec_natural_semitone(r.literal) as int;
    let off = spelled_offset(goal, natural);
    assert(0 <= spec_to_semitone(root) < 12);
    assert(-6 <= off <= 6);
    assert(offset_of(r) == off);
    assert(natural + off + 12 >= 0);
    assert((natural + off + 12) % 12 == goal);
}

/// Transposing moves every note by the distance from the old root to the new one: the note
/// spelled from the new root on given semitones and degree sounds the note spelled from the
/// old root on them, moved by the pitch distance of the roots, on its letter moved by their
/// letter distance.
pub proof fn lemma_transpose_moves_notes(root: Note, to: Note, semitones: int, degree: int)
    requires
        regular(root),
        regular(to),
        0 <= semitones,
        1 <= degree,
    ensures
        spec_to_semitone(spec_get_note(to, semitones, degree)) == (spec_to_semitone(spec_get_note(root, semitones, degree))
            + wrap_u8(pitch_distance(root, to))) % 12,
        literal_index(spec_get_note(to, semitones, degree).literal) == (literal_index(spec_get_note(
            root,
            semitones,
            degree,
        ).literal) + letter_distance(root, to)) % 7,
{
    lemma_get_note_pitch(root, semitones, degree);
    lemma_get_note_pitch(to, semitones, degree);
    let rs = spec_to_semitone(root);
    let ts = spec_to_semitone(to);
    assert(0 <= rs < 12 && 0 <= ts < 12);
    let d = wrap_u8(pitch_distance(root, to));
    assert(d == (ts - rs + 12) % 12);
    assert(((rs + semitones) % 12 + d) % 12 == (ts + semitones) % 12) by (nonlinear_arith)
        requires
            0 <= rs < 12,
            0 <= ts < 12,
            0 <= semitones,
            d == (ts - rs + 12) % 12,
    ;
    let ri = literal_index(root.literal) as int;
    let ti = literal_index(to.literal) as int;
    let a = ri + degree - 1;
    let b = ti + degree - 1;
    assert(literal_index(literal_at(a)) == a % 7);
    assert(literal_index(literal_at(b)) == b % 7);
    assert((a % 7 + (ti - ri + 7) % 7) % 7 == b % 7) by (nonlinear_arith)
        requires
            0 <= ri < 7,
            0 <= ti < 7,
            a == ri + degree - 1,
            b == ti + degree - 1,
            degree >= 1,
    ;
}

/// The pitch class of a note whose computation stays within a byte is 0..=11, or 245..=255
/// where it wrapped below zero.
pub proof fn lemma_semitone_range(n: Note)
    requires
        semitone_defined(n),
    ensures
        0 <= spec_to_semitone(n) < 12 || 245 <= spec_to_semitone(n) <= 255,
        -11 <= signed_semitone(n) < 12,
{
}

/// Transposing a reference note onto a target gives the target itself, for every target
/// whose accidental moves it by at most five semitones either way and is
/// written (a zero accidental is written as no accidental).
#[verifier::rlimit(60)]
#[verifier::spinoff_prover]
pub proof fn lemma_transpose_reference(reference: Note, target: Note)
    requires
        regular(reference),
        match target.modifier {
            Some(m) => -5 <= m.0 <= 5 && m.0 != 0,
            None => true,
        },
    ensures
        spec_get_note(reference, wrap_u8(pitch_distance(reference, target)), letter_distance(reference, target) + 1)
            == target,
{
    let t_st = spec_to_semitone(target);
    let r_st = spec_to_semitone(reference);
    assert(0 <= r_st < 12);
    let natural = spec_natural_semitone(target.literal) as int;
    let v = natural + offset_of(target) + 12;
    assert(t_st == v % 12);
    assert(0 <= t_st < 12);
    let semis = (t_st - r_st + 12) % 12;
    let degree = (literal_index(target.literal) - literal_index(reference.literal) + 7) % 7 + 1;
    assert(literal_at(literal_index(reference.literal) + degree - 1) == target.literal) by {
        let a = literal_index(reference.literal) as int;
        let b = literal_index(target.literal) as int;
        assert(0 <= a < 7 && 0 <= b < 7);
        assert((a + (b - a + 7) % 7) % 7 == b);
    }
    assert(wrap_u8(pitch_distance(reference, target)) == semis);
    assert((r_st + semis) % 12 == t_st);
    assert(spelled_offset(t_st, natural) == offset_of(target)) by {
        assert(7 <= v < 29);
        if v < 12 {
            assert(t_st == v);
        } else if v < 24 {
            assert(t_st == v - 12);
        } else {
            assert(t_st == v - 24);
        }
    }
}

impl Note {
    pub fn new(literal: NoteLiteral, modifier: Option<NoteModifier>) -> (r: Self)
        ensures
            r.literal == literal,
            r.modifier == modifier,
    {
        Self { literal, modifier }
    }

    /// The pitch class of the note, 0 for C.
    pub fn to_semitone(&self) -> (r: u8)
        requires
            semitone_defined(*self),
        ensures
            r == spec_to_semitone(*self),
            regular(*self) ==> r < 12,
    {
        let base_semitone = self.literal.natural_semitone();
        let offset: i8 = match self.modifier {
            Some(m) => m.0,
            None => 0,
        };
        let v: i16 = base_semitone as i16 + offset as i16 + 12;
        if v >= 0 {
            (v % 12) as u8
        } else {
            let r: i16 = (-v) % 12;
            if r == 0 {
                0
            } else {
                (256 - r) as u8
            }
        }
    }

    /// The note at `semitones_from_root` above this one, spelled on the letter of
    /// `interval_degree` (1 for the root itself, 3 for a third...).
    pub fn get_note(&self, semitones_from_root: u8, interval_degree: u8) -> (r: Note)
        requires
            semitone_defined(*self),
            1 <= interval_degree,
            literal_index(self.literal) + interval_degree - 1 <= 255,
            spec_to_semitone(*self) + semitones_from_root <= 255,
        ensures
            r == spec_get_note(*self, semitones_from_root as int, interval_degree as int),
    {
        let target_literal = NoteLiteral::from_u8(self.literal.index() + (interval_degree - 1));
        let root_pitch = self.to_semitone();
        let goal_pitch = (root_pitch + semitones_from_root) % 12;
        let natural_pitch = target_literal.natural_semitone();
        let mut offset: i8 = goal_pitch as i8 - natural_pitch as i8;
        if offset > 6 {
            offset -= 12;
        } else if offset < -6 {
            offset += 12;
        }
        Note {
            literal: target_literal,
            modifier: if offset == 0 {
                None
            } else {
                Some(NoteModifier(offset))
            },
        }
    }

    /// Moves `note_to_transpose` by the distance from this note to `target_reference`,
    /// keeping the letter distance as well as the pitch distance.
    pub fn transpose(&self, note_to_transpose: &Note, target_reference: &Note) -> (r: Note)
        requires
            semitone_defined(*self),
            semitone_defined(*target_reference),
            semitone_defined(*note_to_transpose),
            spec_to_semitone(*note_to_transpose) + wrap_u8(pitch_distance(*self, *target_reference)) <= 255,
        ensures
            r == spec_get_note(
                *note_to_transpose,
                wrap_u8(pitch_distance(*self, *target_reference)),
                letter_distance(*self, *target_reference) + 1,
            ),
    {
        proof {
            lemma_semitone_range(*self);
            lemma_semitone_range(*target_reference);
        }
        let t = target_reference.to_semitone();
        let f = self.to_semitone();
        let ts: i16 = if t > 127 { t as i16 - 256 } else { t as i16 };
        let fs: i16 = if f > 127 { f as i16 - 256 } else { f as i16 };
        let v: i16 = ts - fs + 12;
        let semi: i16 = if v >= 0 { v % 12 } else { -((-v) % 12) };
        let semi_u8: u8 = if semi >= 0 { semi as u8 } else { (semi + 256) as u8 };
        let letter_diff: u8 = (target_reference.literal.index() + 7 - self.literal.index()) % 7;
        note_to_transpose.get_note(semi_u8, letter_diff + 1)
    }

    /// The MIDI code of the note in the octave below middle C (C = 48).
    pub fn to_midi_code(&self) -> (r: u8)
        requires
            semitone_defined(*self),
            !(80 <= spec_to_semitone(*self) <= 127),
        ensures
            r == spec_midi_code(*self),
            regular(*self) ==> 48 <= r < 60,
    {
        let octave: i16 = 3;
        let base_c: i16 = 12 * (octave + 1);
        let note_offset = self.to_semitone();
        let signed: i16 = if note_offset > 127 { note_offset as i16 - 256 } else { note_offset as i16 };
        let v: i16 = base_c + signed;
        if v < 0 {
            (v + 256) as u8
        } else {
            v as u8
        }
    }

    /// The written form of the note, such as `Eb` or `F𝄪`.
    pub fn to_string(&self) -> (r: String)
        ensures
            r@ == note_text(*self),
    {
        let mut s = String::new();
        s.append(self.literal.as_str());
        match self.modifier {
            Some(m) => {
                let t = m.to_string();
                s.append(t.as_str());
            },
            None => {},
        }
        assert(s@ =~= note_text(*self));
        s
    }
}

} // verus!
