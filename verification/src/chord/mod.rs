//! Chords, notes and intervals.
pub mod interval;
pub mod modifier;
pub mod note;
pub mod quality;

use crate::chord::interval::{spec_st, Interval};
use crate::chord::note::{
    letter_distance, literal_index, note_text, pitch_distance, semitone_defined, spec_get_note, spec_midi_code,
    spec_to_semitone, wrap_u8, Note,
};
use crate::chord::quality::ChordQuality;
use vstd::prelude::*;

verus! {

/// Chord representation of a successfully parsed string.
#[derive(Debug, PartialEq, Eq, Clone)]
pub struct Chord {
    /// The string that originated the chord.
    pub origin: String,
    /// The descriptor of the chord (all beyond its root).
    pub descriptor: String,
    /// The normalized name of the chord.
    pub normalized: String,
    /// The root note of the chord.
    pub root: Note,
    /// The bass note of the chord if any is added with a slash.
    pub bass: Option<Note>,
    /// The notes of the chord.
    pub notes: Vec<Note>,
    /// The semitones of the notes relative to root.
    pub semitones: Vec<u8>,
    /// The real intervals of the notes.
    pub intervals: Vec<Interval>,
    /// The quality of the chord.
    pub quality: ChordQuality,
    /// The normalized intervals of the notes, used to normalize the name.
    pub normalized_intervals: Vec<Interval>,
    /// Interval degrees of the notes.
    pub interval_degrees: Vec<u8>,
}

/// A chord with its strings and lists as sequences.
pub struct ChordView {
    pub origin: Seq<char>,
    pub descriptor: Seq<char>,
    pub normalized: Seq<char>,
    pub root: Note,
    pub bass: Option<Note>,
    pub notes: Seq<Note>,
    pub semitones: Seq<u8>,
    pub intervals: Seq<Interval>,
    pub quality: ChordQuality,
    pub normalized_intervals: Seq<Interval>,
    pub interval_degrees: Seq<u8>,
}

impl View for Chord {
    type V = ChordView;

    open spec fn view(&self) -> ChordView {
        ChordView {
            origin: self.origin@,
            descriptor: self.descriptor@,
            normalized: self.normalized@,
            root: self.root,
            bass: self.bass,
            notes: self.notes@,
            semitones: self.semitones@,
            intervals: self.intervals@,
            quality: self.quality,
            normalized_intervals: self.normalized_intervals@,
            interval_degrees: self.interval_degrees@,
        }
    }
}

/// The origin string of a chord transposed to `root_name`: the root's name followed by the
/// descriptor, where a leading `#5` is written `+5` so that it is not read as part of the root.
pub open spec fn transposed_origin(root_name: Seq<char>, descriptor: Seq<char>) -> Seq<char> {
    if descriptor.len() >= 2 && descriptor[0] == '#' && descriptor[1] == '5' {
        root_name + "+5"@ + descriptor.skip(2)
    } else {
        root_name + descriptor
    }
}

/// Whether the notes of a chord can be spelled again from a new root: each semitone count
/// paired with a degree of at least 1.
pub open spec fn respellable(semitones: Seq<u8>, degrees: Seq<u8>, root: Note) -> bool {
    forall|i: int| 0 <= i < semitones.len() && i < degrees.len() ==> {
        &&& 1 <= degrees[i]
        &&& literal_index(root.literal) + degrees[i] - 1 <= 255
        &&& spec_to_semitone(root) + semitones[i] <= 255
    }
}

/// Whether a note has a MIDI code: its pitch class is computed within a byte, and read as a
/// signed byte it lifts middle C's octave no higher than 127.
pub open spec fn coded(n: Note) -> bool {
    semitone_defined(n) && !(80 <= spec_to_semitone(n) <= 127)
}

/// Whether the MIDI codes of a chord stay within a byte: the lowered code (of the bass, or of
/// the root without a bass) is at least 12, and every interval above the root stays at most 255.
pub open spec fn codes_fit(root: Note, bass: Option<Note>, normalized: Seq<Interval>) -> bool {
    &&& coded(root)
    &&& match bass {
        Some(b) => coded(b) && spec_midi_code(b) >= 12,
        None => spec_midi_code(root) >= 12,
    }
    &&& forall|k: int| 1 <= k < normalized.len() ==> spec_st(#[trigger] normalized[k]) + spec_midi_code(root) <= 255
}

/// The MIDI codes of a chord with the given root, bass and normalized intervals.
pub open spec fn spec_midi_codes(root: Note, bass: Option<Note>, normalized: Seq<Interval>) -> Seq<u8> {
    let r = spec_midi_code(root);
    let head: Seq<u8> = match bass {
        Some(b) => seq![(spec_midi_code(b) - 12) as u8, r as u8],
        None => seq![(r - 12) as u8],
    };
    head + tail_of(normalized).map_values(|i: Interval| (spec_st(i) + r) as u8)
}

/// The MIDI codes of a chord, as `Chord::to_midi_codes` gives them: the bass an octave below
/// its own code and then the root's code, or the root's code an octave lower; then, for each
/// normalized interval but the first, the root's code raised by the interval's full semitone
/// count (a ninth lies 14 semitones above the root).
pub proof fn lemma_midi_codes_above_root(root: Note, bass: Option<Note>, normalized: Seq<Interval>)
    requires
        codes_fit(root, bass, normalized),
    ensures
        ({
            let codes = spec_midi_codes(root, bass, normalized);
            let h: int = if bass is Some { 2 } else { 1 };
            &&& codes.len() == h + if normalized.len() > 0 { normalized.len() - 1 } else { 0 }
            &&& match bass {
                Some(b) => codes[0] == spec_midi_code(b) - 12 && codes[1] == spec_midi_code(root),
                None => codes[0] == spec_midi_code(root) - 12,
            }
            &&& forall|k: int| 1 <= k < normalized.len() ==> codes[h + k - 1] == spec_midi_code(root) + spec_st(
                #[trigger] normalized[k],
            )
        }),
{
    let codes = spec_midi_codes(root, bass, normalized);
    let h: int = if bass is Some { 2 } else { 1 };
    let r = spec_midi_code(root);
    assert forall|k: int| 1 <= k < normalized.len() implies codes[h + k - 1] == r + spec_st(#[trigger] normalized[k]) by {
        assert(tail_of(normalized)[k - 1] == normalized[k]);
        assert(spec_st(normalized[k]) + r <= 255);
    }
}

/// All elements but the first (none for an empty sequence).
pub open spec fn tail_of<A>(s: Seq<A>) -> Seq<A> {
    if s.len() == 0 {
        s
    } else {
        s.skip(1)
    }
}

impl Chord {
    pub fn builder(origin: &str, root: Note) -> (r: ChordBuilder)
        ensures
            r.origin@ == origin@,
            r.root == root,
            r.is_fresh(),
    {
        ChordBuilder::new(origin, root)
    }

    /// The written names of the notes of the chord.
    pub fn note_literals(&self) -> (r: Vec<String>)
        ensures
            r@.len() == self.notes@.len(),
            forall|i: int| 0 <= i < r@.len() ==> r@[i]@ == note_text(self.notes@[i]),
    {
        let mut r: Vec<String> = Vec::new();
        let mut i: usize = 0;
        while i < self.notes.len()
            invariant
                i <= self.notes@.len(),
                r@.len() == i,
                forall|j: int| 0 <= j < i ==> r@[j]@ == note_text(self.notes@[j]),
            decreases self.notes@.len() - i,
        {
            r.push(self.notes[i].to_string());
            i = i + 1;
        }
        r
    }

    /// Transposes the chord to a different root note.
    ///
    /// The notes are spelled again from the new root with the chord's semitones and degrees;
    /// the bass moves by the same letter and pitch distance as the root. The new chord keeps
    /// the descriptor, quality, semitones, degrees and intervals; its normalized name is left
    /// empty.
    pub fn transpose(&self, transpose_to: &Note) -> (r: Chord)
        requires
            match self.bass {
                Some(b) => semitone_defined(self.root) && semitone_defined(*transpose_to) && semitone_defined(b)
                    && spec_to_semitone(b) + wrap_u8(pitch_distance(self.root, *transpose_to)) <= 255,
                None => true,
            },
            self.semitones@.len() > 0 && self.interval_degrees@.len() > 0 ==> semitone_defined(*transpose_to),
            respellable(self.semitones@, self.interval_degrees@, *transpose_to),
        ensures
            r.root == *transpose_to,
            r.origin@ == transposed_origin(note_text(*transpose_to), self.descriptor@),
            r.descriptor@ == self.descriptor@,
            r.normalized@ == Seq::<char>::empty(),
            r.quality == self.quality,
            r.bass == match self.bass {
                Some(b) => Some(spec_get_note(
                    b,
                    wrap_u8(pitch_distance(self.root, *transpose_to)),
                    letter_distance(self.root, *transpose_to) + 1,
                )),
                None => None,
            },
            r.semitones@ == self.semitones@,
            r.interval_degrees@ == self.interval_degrees@,
            r.intervals@ == self.intervals@,
            r.normalized_intervals@ == self.normalized_intervals@,
            r.notes@.len() == if self.semitones@.len() < self.interval_degrees@.len() { self.semitones@.len() } else { self.interval_degrees@.len() },
            forall|i: int| 0 <= i < r.notes@.len() ==> r.notes@[i] == spec_get_note(
                *transpose_to,
                self.semitones@[i] as int,
                self.interval_degrees@[i] as int,
            ),
    {
        let bass = match &self.bass {
            Some(b) => Some(self.root.transpose(b, transpose_to)),
            None => None,
        };
        let mut notes: Vec<Note> = Vec::new();
        let semitones = self.semitones.clone();
        let interval_degrees = self.interval_degrees.clone();
        let n = if semitones.len() < interval_degrees.len() { semitones.len() } else { interval_degrees.len() };
        let mut i: usize = 0;
        while i < n
            invariant
                i <= n,
                n <= semitones@.len(),
                n <= interval_degrees@.len(),
                semitones@ == self.semitones@,
                interval_degrees@ == self.interval_degrees@,
                respellable(self.semitones@, self.interval_degrees@, *transpose_to),
                n > 0 ==> semitone_defined(*transpose_to),
                notes@.len() == i,
                forall|j: int| 0 <= j < i ==> notes@[j] == spec_get_note(
                    *transpose_to,
                    self.semitones@[j] as int,
                    self.interval_degrees@[j] as int,
                ),
            decreases n - i,
        {
            let note = transpose_to.get_note(semitones[i], interval_degrees[i]);
            notes.push(note);
            i = i + 1;
        }
        let mut origin = transpose_to.to_string();
        let d = self.descriptor.as_str();
        let dl = d.unicode_len();
        if dl >= 2 && d.get_char(0) == '#' && d.get_char(1) == '5' {
            origin.append("+5");
            let rest = d.substring_char(2, dl);
            origin.append(rest);
        } else {
            origin.append(d);
        }
        Chord::builder(origin.as_str(), *transpose_to)
            .descriptor(d)
            .bass(bass)
            .notes(notes)
            .semitones(semitones)
            .interval_degrees(interval_degrees)
            .normalized_intervals(self.normalized_intervals.clone())
            .intervals(self.intervals.clone())
            .quality(self.quality)
            .build()
    }

    /// The MIDI codes of the chord: the bass an octave down followed by the root, or the root
    /// an octave down, then every normalized interval but the first above the root.
    pub fn to_midi_codes(&self) -> (r: Vec<u8>)
        requires
            codes_fit(self.root, self.bass, self.normalized_intervals@),
        ensures
            r@ == spec_midi_codes(self.root, self.bass, self.normalized_intervals@),
    {
        let root = self.root.to_midi_code();
        let mut codes: Vec<u8> = Vec::new();
        match &self.bass {
            Some(bass) => {
                codes.push(bass.to_midi_code() - 12);
                codes.push(root);
            },
            None => {
                codes.push(root - 12);
            },
        }
        let ghost head = codes@;
        let ghost rest = tail_of(self.normalized_intervals@).map_values(|i: Interval| (spec_st(i) + root) as u8);
        let mut k: usize = 1;
        while k < self.normalized_intervals.len()
            invariant
                1 <= k,
                k <= self.normalized_intervals@.len() || (self.normalized_intervals@.len() == 0 && k == 1),
                root == spec_midi_code(self.root),
                codes_fit(self.root, self.bass, self.normalized_intervals@),
                rest == tail_of(self.normalized_intervals@).map_values(|i: Interval| (spec_st(i) + root) as u8),
                codes@ == head + rest.take(k - 1),
            decreases self.normalized_intervals@.len() - k,
        {
            let st = self.normalized_intervals[k].st();
            codes.push(st + root);
            assert(rest.take(k as int) =~= rest.take(k - 1).push((st + root) as u8));
            k = k + 1;
        }
        proof {
            if self.normalized_intervals@.len() > 0 {
                assert(rest.take(self.normalized_intervals@.len() - 1) =~= rest);
            } else {
                assert(rest =~= Seq::<u8>::empty());
                assert(rest.take(k - 1) =~= rest);
            }
            assert(codes@ =~= head + rest);
        }
        codes
    }
}

/// Builder for the Chord struct.
pub struct ChordBuilder {
    pub origin: String,
    pub normalized: String,
    pub descriptor: String,
    pub root: Note,
    pub bass: Option<Note>,
    pub notes: Vec<Note>,
    pub semitones: Vec<u8>,
    pub interval_degrees: Vec<u8>,
    pub intervals: Vec<Interval>,
    pub normalized_intervals: Vec<Interval>,
    pub quality: ChordQuality,
}

impl ChordBuilder {
    /// Whether every field but the origin and root still holds its initial value.
    pub open spec fn is_fresh(&self) -> bool {
        &&& self.normalized@ == Seq::<char>::empty()
        &&& self.descriptor@ == Seq::<char>::empty()
        &&& self.bass is None
        &&& self.notes@ == Seq::<Note>::empty()
        &&& self.semitones@ == Seq::<u8>::empty()
        &&& self.interval_degrees@ == Seq::<u8>::empty()
        &&& self.normalized_intervals@ == Seq::<Interval>::empty()
        &&& self.intervals@ == Seq::<Interval>::empty()
        &&& self.quality == ChordQuality::Maj
    }

    pub fn new(origin: &str, root: Note) -> (r: ChordBuilder)
        ensures
            r.origin@ == origin@,
            r.root == root,
            r.is_fresh(),
    {
        ChordBuilder {
            origin: origin.to_owned(),
            normalized: String::new(),
            descriptor: String::new(),
            root,
            bass: None,
            notes: Vec::new(),
            semitones: Vec::new(),
            interval_degrees: Vec::new(),
            normalized_intervals: Vec::new(),
            intervals: Vec::new(),
            quality: ChordQuality::Maj,
        }
    }

    pub fn quality(self, quality: ChordQuality) -> (r: ChordBuilder)
        ensures
            r == (ChordBuilder { quality, ..self }),
    {
        ChordBuilder { quality, ..self }
    }

    pub fn intervals(self, real_intervals: Vec<Interval>) -> (r: ChordBuilder)
        ensures
            r == (ChordBuilder { intervals: real_intervals, ..self }),
    {
        ChordBuilder { intervals: real_intervals, ..self }
    }

    pub fn normalized_intervals(self, normalized_intervals: Vec<Interval>) -> (r: ChordBuilder)
        ensures
            r == (ChordBuilder { normalized_intervals, ..self }),
    {
        ChordBuilder { normalized_intervals, ..self }
    }

    pub fn interval_degrees(self, semantic_intervals: Vec<u8>) -> (r: ChordBuilder)
        ensures
            r == (ChordBuilder { interval_degrees: semantic_intervals, ..self }),
    {
        ChordBuilder { interval_degrees: semantic_intervals, ..self }
    }

    pub fn semitones(self, semitones: Vec<u8>) -> (r: ChordBuilder)
        ensures
            r == (ChordBuilder { semitones, ..self }),
    {
        ChordBuilder { semitones, ..self }
    }

    pub fn notes(self, notes: Vec<Note>) -> (r: ChordBuilder)
        ensures
            r == (ChordBuilder { notes, ..self }),
    {
        ChordBuilder { notes, ..self }
    }

    pub fn bass(self, bass: Option<Note>) -> (r: ChordBuilder)
        ensures
            r == (ChordBuilder { bass, ..self }),
    {
        ChordBuilder { bass, ..self }
    }

    pub fn descriptor(self, descriptor: &str) -> (r: ChordBuilder)
        ensures
            r.descriptor@ == descriptor@,
            r == (ChordBuilder { descriptor: r.descriptor, ..self }),
    {
        ChordBuilder { descriptor: descriptor.to_owned(), ..self }
    }

    pub fn normalized(self, normalized: String) -> (r: ChordBuilder)
        ensures
            r == (ChordBuilder { normalized, ..self }),
    {
        ChordBuilder { normalized, ..self }
    }

    pub fn build(self) -> (r: Chord)
        ensures
            r == (Chord {
                origin: self.origin,
                descriptor: self.descriptor,
                normalized: self.normalized,
                root: self.root,
                bass: self.bass,
                notes: self.notes,
                semitones: self.semitones,
                intervals: self.intervals,
                quality: self.quality,
                normalized_intervals: self.normalized_intervals,
                interval_degrees: self.interval_degrees,
            }),
    {
        Chord {
            origin: self.origin,
            descriptor: self.descriptor,
            root: self.root,
            bass: self.bass,
            notes: self.notes,
            interval_degrees: self.interval_degrees,
            intervals: self.intervals,
            normalized_intervals: self.normalized_intervals,
            semitones: self.semitones,
            normalized: self.normalized,
            quality: self.quality,
        }
    }
}

} // verus!
