//! Chord inference from MIDI codes.
pub mod normalize;
pub mod tables;

use crate::chord::interval::{Interval, IntervalSet};
use crate::chord::note::note_text;
use crate::chord::quality::{
    pc_at, pc_of_interval, spec_quality, spec_thirds, thirds_set, ChordQuality, PitchClass, PitchClassSet,
};
use crate::inference::normalize::{normalize, spec_describe};
use crate::inference::tables::{notes_from_midi, spec_notes_from_midi};
use crate::chord::{Chord, ChordView};
use crate::parsing::{spec_parse, Parser};
use vstd::prelude::*;

verus! {

/// The pitch class of `other` above `root`.
pub open spec fn spec_pitch_class(root: int, other: int) -> PitchClass {
    pc_at(((other - root) % 12) as u32)
}

/// The pitch class of `other` above `root`, counted upwards within an octave.
pub fn pitch_class(root: u8, other: u8) -> (r: PitchClass)
    ensures
        r == spec_pitch_class(root as int, other as int),
{
    let diff: i16 = other as i16 - root as i16;
    let pc: i16 = if diff >= 0 { diff % 12 } else { (12 - ((-diff) % 12)) % 12 };
    assert(pc == (other - root) % 12);
    PitchClass::at(pc as u32)
}

/// How a pitch class becomes an interval: at once, after the others, or as the augmented
/// fifth whose reading depends on the rest of the chord.
pub enum Phase {
    Immediate(Interval),
    Deferred(Interval),
    PostProcess,
}

pub open spec fn spec_classify_pc(pc: PitchClass) -> Phase {
    match pc {
        PitchClass::Pc0 => Phase::Immediate(Interval::Unison),
        PitchClass::Pc1 => Phase::Immediate(Interval::FlatNinth),
        PitchClass::Pc2 => Phase::Immediate(Interval::Ninth),
        PitchClass::Pc3 => Phase::Deferred(Interval::MinorThird),
        PitchClass::Pc4 => Phase::Immediate(Interval::MajorThird),
        PitchClass::Pc5 => Phase::Immediate(Interval::Eleventh),
        PitchClass::Pc6 => Phase::Deferred(Interval::AugmentedFourth),
        PitchClass::Pc7 => Phase::Immediate(Interval::PerfectFifth),
        PitchClass::Pc8 => Phase::PostProcess,
        PitchClass::Pc9 => Phase::Deferred(Interval::MajorSixth),
        PitchClass::Pc10 => Phase::Immediate(Interval::MinorSeventh),
        PitchClass::Pc11 => Phase::Immediate(Interval::MajorSeventh),
    }
}

/// How a pitch class becomes an interval.
pub fn classify_pc(pc: PitchClass) -> (r: Phase)
    ensures
        r == spec_classify_pc(pc),
{
    match pc {
        PitchClass::Pc0 => Phase::Immediate(Interval::Unison),
        PitchClass::Pc1 => Phase::Immediate(Interval::FlatNinth),
        PitchClass::Pc2 => Phase::Immediate(Interval::Ninth),
        PitchClass::Pc3 => Phase::Deferred(Interval::MinorThird),
        PitchClass::Pc4 => Phase::Immediate(Interval::MajorThird),
        PitchClass::Pc5 => Phase::Immediate(Interval::Eleventh),
        PitchClass::Pc6 => Phase::Deferred(Interval::AugmentedFourth),
        PitchClass::Pc7 => Phase::Immediate(Interval::PerfectFifth),
        PitchClass::Pc8 => Phase::PostProcess,
        PitchClass::Pc9 => Phase::Deferred(Interval::MajorSixth),
        PitchClass::Pc10 => Phase::Immediate(Interval::MinorSeventh),
        PitchClass::Pc11 => Phase::Immediate(Interval::MajorSeventh),
    }
}

/// The interval a deferred pitch class becomes, given the intervals read so far: a minor third
/// is a sharp ninth beside a major third; a tritone is a sharp eleventh beside a perfect fifth
/// and a diminished fifth otherwise; a major sixth is a thirteenth beside a minor seventh and a
/// diminished seventh in a diminished triad.
pub open spec fn spec_resolve(iset: Set<Interval>, interval: Interval) -> Set<Interval> {
    match interval {
        Interval::MinorThird => if iset.contains(Interval::MajorThird) {
            iset.insert(Interval::SharpNinth)
        } else {
            iset.insert(Interval::MinorThird)
        },
        Interval::AugmentedFourth => if iset.contains(Interval::PerfectFifth) {
            iset.insert(Interval::SharpEleventh)
        } else {
            iset.insert(Interval::DiminishedFifth)
        },
        Interval::MajorSixth => if iset.contains(Interval::MinorSeventh) {
            iset.insert(Interval::Thirteenth)
        } else if iset.contains(Interval::DiminishedFifth) && iset.contains(Interval::MinorThird) {
            iset.insert(Interval::DiminishedSeventh)
        } else {
            iset.insert(Interval::MajorSixth)
        },
        _ => iset,
    }
}

/// The interval an augmented fifth becomes: a flat thirteenth beside a seventh or sixth, an
/// augmented fifth beside a major third, a minor sixth otherwise.
pub open spec fn spec_resolve_augmented_fifth(iset: Set<Interval>) -> Set<Interval> {
    if iset.contains(Interval::MinorSeventh) || iset.contains(Interval::DiminishedSeventh) || iset.contains(Interval::MajorSixth) {
        iset.insert(Interval::FlatThirteenth)
    } else if iset.contains(Interval::MajorThird) {
        iset.insert(Interval::AugmentedFifth)
    } else {
        iset.insert(Interval::MinorSixth)
    }
}

/// The intervals of the pitch classes that become intervals at once.
pub open spec fn spec_immediate(ps: Set<PitchClass>) -> Set<Interval> {
    Set::new(|i: Interval| exists|p: PitchClass| ps.contains(p) && spec_classify_pc(p) == Phase::Immediate(i))
}

/// The intervals of a set of pitch classes: the immediate ones, then the deferred ones in
/// ascending order, then the augmented fifth.
pub open spec fn spec_interval_set(ps: Set<PitchClass>) -> Set<Interval> {
    let s0 = spec_immediate(ps);
    let s1 = if ps.contains(PitchClass::Pc3) { spec_resolve(s0, Interval::MinorThird) } else { s0 };
    let s2 = if ps.contains(PitchClass::Pc6) { spec_resolve(s1, Interval::AugmentedFourth) } else { s1 };
    let s3 = if ps.contains(PitchClass::Pc9) { spec_resolve(s2, Interval::MajorSixth) } else { s2 };
    if ps.contains(PitchClass::Pc8) { spec_resolve_augmented_fifth(s3) } else { s3 }
}

/// Inserts the interval a deferred pitch class becomes.
pub fn resolve_interval(iset: &mut IntervalSet, interval: Interval)
    ensures
        final(iset)@ == spec_resolve(old(iset)@, interval),
{
    match interval {
        Interval::MinorThird => {
            if iset.contains(Interval::MajorThird) {
                iset.insert(Interval::SharpNinth);
            } else {
                iset.insert(Interval::MinorThird);
            }
        },
        Interval::AugmentedFourth => {
            if iset.contains(Interval::PerfectFifth) {
                iset.insert(Interval::SharpEleventh);
            } else {
                iset.insert(Interval::DiminishedFifth);
            }
        },
        Interval::MajorSixth => {
            if iset.contains(Interval::MinorSeventh) {
                iset.insert(Interval::Thirteenth);
            } else if iset.contains(Interval::DiminishedFifth) && iset.contains(Interval::MinorThird) {
                iset.insert(Interval::DiminishedSeventh);
            } else {
                iset.insert(Interval::MajorSixth);
            }
        },
        _ => {},
    }
}

/// Inserts the interval an augmented fifth becomes.
pub fn resolve_augmented_fifth(iset: &mut IntervalSet)
    ensures
        final(iset)@ == spec_resolve_augmented_fifth(old(iset)@),
{
    if iset.contains(Interval::MinorSeventh) || iset.contains(Interval::DiminishedSeventh) || iset.contains(Interval::MajorSixth) {
        iset.insert(Interval::FlatThirteenth);
    } else if iset.contains(Interval::MajorThird) {
        iset.insert(Interval::AugmentedFifth);
    } else {
        iset.insert(Interval::MinorSixth);
    }
}

/// The intervals of a set of pitch classes above a root.
pub fn interval_set_from_pitch_classes(pitch_set: &PitchClassSet) -> (r: IntervalSet)
    ensures
        r@ == spec_interval_set(pitch_set@),
{
    let mut iset = IntervalSet::new();
    let mut k: u32 = 0;
    while k < 12
        invariant
            k <= 12,
            forall|i: Interval| iset@.contains(i) <==> exists|p: PitchClass| pitch_set@.contains(p)
                && crate::chord::quality::pc_index(p) < k && spec_classify_pc(p) == Phase::Immediate(i),
        decreases 12 - k,
    {
        let pc = PitchClass::at(k);
        if pitch_set.contains(pc) {
            match classify_pc(pc) {
                Phase::Immediate(i) => iset.insert(i),
                _ => {},
            }
        }
        proof {
            broadcast use crate::chord::quality::lemma_pc_index;
            assert forall|i: Interval| iset@.contains(i) <==> exists|p: PitchClass| pitch_set@.contains(p)
                && crate::chord::quality::pc_index(p) < k + 1 && spec_classify_pc(p) == Phase::Immediate(i) by {
                if exists|p: PitchClass| pitch_set@.contains(p) && crate::chord::quality::pc_index(p) < k + 1 && spec_classify_pc(p) == Phase::Immediate(i) {
                    let p = choose|p: PitchClass| pitch_set@.contains(p) && crate::chord::quality::pc_index(p) < k + 1 && spec_classify_pc(p) == Phase::Immediate(i);
                    if crate::chord::quality::pc_index(p) == k {
                        assert(p == pc);
                    }
                }
                if iset@.contains(i) && !(exists|p: PitchClass| pitch_set@.contains(p) && crate::chord::quality::pc_index(p) < k && spec_classify_pc(p) == Phase::Immediate(i)) {
                    assert(pitch_set@.contains(pc) && crate::chord::quality::pc_index(pc) < k + 1);
                }
            }
        }
        k = k + 1;
    }
    proof {
        broadcast use crate::chord::quality::lemma_pc_index;
        assert(iset@ =~= spec_immediate(pitch_set@));
    }
    if pitch_set.contains(PitchClass::Pc3) {
        resolve_interval(&mut iset, Interval::MinorThird);
    }
    if pitch_set.contains(PitchClass::Pc6) {
        resolve_interval(&mut iset, Interval::AugmentedFourth);
    }
    if pitch_set.contains(PitchClass::Pc9) {
        resolve_interval(&mut iset, Interval::MajorSixth);
    }
    if pitch_set.contains(PitchClass::Pc8) {
        resolve_augmented_fifth(&mut iset);
    }
    iset
}

/// The pitch classes of `codes` above `root`.
pub open spec fn spec_pitch_set(root: int, codes: Seq<u8>) -> Set<PitchClass> {
    codes.map_values(|c: u8| spec_pitch_class(root, c as int)).to_set()
}

/// Whether `codes[idx]` is the first code of its pitch class.
pub open spec fn first_of_pitch(codes: Seq<u8>, idx: int) -> bool {
    forall|j: int| 0 <= j < idx ==> codes[j] % 12 != codes[idx] % 12
}

/// The name of the flat (or natural) spelling of the pitch class of a MIDI code.
pub open spec fn flat_name(midi: int) -> Seq<char> {
    note_text(spec_notes_from_midi(midi).last())
}

/// The candidate descriptor that reads the chord from `codes[idx]` as root.
pub open spec fn spec_candidate(codes: Seq<u8>, idx: int) -> Seq<char> {
    let m = codes[idx] as int;
    let ps = spec_pitch_set(m, codes);
    let iset = spec_interval_set(ps);
    let ps_q = if iset.intersect(spec_thirds()) =~= Set::empty() { ps.insert(PitchClass::Pc4) } else { ps };
    let q = spec_quality(ps_q);
    let name = flat_name(m) + spec_describe(iset.map(|i: Interval| pc_of_interval(i)), iset, q, true);
    if idx > 0 {
        name + "/"@ + flat_name(codes[0] as int)
    } else {
        name
    }
}

/// The candidates of the first `n` codes: one for each code that is the first of its pitch class.
pub open spec fn spec_candidates(codes: Seq<u8>, n: int) -> Seq<Seq<char>>
    decreases n,
{
    if n <= 0 {
        Seq::empty()
    } else {
        let prev = spec_candidates(codes, n - 1);
        if first_of_pitch(codes, n - 1) {
            prev.push(spec_candidate(codes, n - 1))
        } else {
            prev
        }
    }
}

fn pitch_set_of(root: u8, codes: &[u8]) -> (r: PitchClassSet)
    ensures
        r@ == spec_pitch_set(root as int, codes@),
{
    let mut r = PitchClassSet::new();
    let mut k: usize = 0;
    while k < codes.len()
        invariant
            k <= codes@.len(),
            r@ == codes@.subrange(0, k as int).map_values(|c: u8| spec_pitch_class(root as int, c as int)).to_set(),
        decreases codes@.len() - k,
    {
        let p = pitch_class(root, codes[k]);
        r.insert(p);
        proof {
            let f = |c: u8| spec_pitch_class(root as int, c as int);
            let pre = codes@.subrange(0, k as int);
            assert(codes@.subrange(0, k + 1) =~= pre.push(codes@[k as int]));
            assert(pre.push(codes@[k as int]).map_values(f) =~= pre.map_values(f).push(p));
            pre.map_values(f).lemma_push_to_set_commute(p);
        }
        k = k + 1;
    }
    assert(codes@.subrange(0, codes@.len() as int) =~= codes@);
    r
}

fn flat_name_of(midi: u8) -> (r: String)
    ensures
        r@ == flat_name(midi as int),
{
    let notes = notes_from_midi(midi);
    notes[notes.len() - 1].to_string()
}

/// Builds the candidate descriptors of the chord that the given MIDI codes sound.
///
/// Each code that is the first of its pitch class gives one candidate, reading the chord with
/// that code as root; every candidate but the first is written over the lowest code as bass.
/// Candidates are spelled with flats, and are not checked to be valid chords.
pub fn descriptors_from_midi_codes(midi_codes: &[u8]) -> (r: Vec<String>)
    ensures
        r@.map_values(|s: String| s@) == spec_candidates(midi_codes@, midi_codes@.len() as int),
{
    let mut candidates: Vec<String> = Vec::new();
    if midi_codes.len() == 0 {
        assert(candidates@.map_values(|s: String| s@) =~= spec_candidates(midi_codes@, 0));
        return candidates;
    }
    let root_note = flat_name_of(midi_codes[0]);
    let mut seen = [false; 12];
    let mut index: usize = 0;
    while index < midi_codes.len()
        invariant
            index <= midi_codes@.len(),
            midi_codes@.len() > 0,
            root_note@ == flat_name(midi_codes@[0] as int),
            seen@.len() == 12,
            forall|p: int| 0 <= p < 12 ==> (seen@[p] <==> exists|j: int| 0 <= j < index && midi_codes@[j] % 12 == p),
            candidates@.map_values(|s: String| s@) == spec_candidates(midi_codes@, index as int),
        decreases midi_codes@.len() - index,
    {
        let midi_note = midi_codes[index];
        let pc = (midi_note % 12) as usize;
        let ghost prev = candidates@.map_values(|s: String| s@);
        if !seen[pc] {
            seen[pc] = true;
            let mut pitch_set = pitch_set_of(midi_note, midi_codes);
            let interval_set = interval_set_from_pitch_classes(&pitch_set);
            if interval_set.intersection(&thirds_set()).is_empty() {
                pitch_set.insert(PitchClass::Pc4);
            }
            let quality = ChordQuality::from_pitch_classes(&pitch_set);
            let descriptor_pcs = PitchClassSet::from_interval_set(&interval_set);
            let mut chord_name = flat_name_of(midi_note);
            let descriptor = normalize(&descriptor_pcs, &interval_set, &quality);
            chord_name.append(descriptor.as_str());
            if index > 0 {
                chord_name.append("/");
                chord_name.append(root_note.as_str());
            }
            proof {
                assert(first_of_pitch(midi_codes@, index as int));
                assert(chord_name@ =~= spec_candidate(midi_codes@, index as int));
            }
            candidates.push(chord_name);
            proof {
                assert(candidates@.map_values(|s: String| s@) =~= prev.push(spec_candidate(midi_codes@, index as int)));
            }
        } else {
            proof {
                let j = choose|j: int| 0 <= j < index && midi_codes@[j] % 12 == pc;
                assert(!first_of_pitch(midi_codes@, index as int));
            }
        }
        proof {
            assert forall|p: int| 0 <= p < 12 implies (seen@[p] <==> exists|j: int| 0 <= j < index + 1 && midi_codes@[j] % 12 == p) by {
                if p == pc {
                    assert(midi_codes@[index as int] % 12 == p);
                } else {
                    if exists|j: int| 0 <= j < index + 1 && midi_codes@[j] % 12 == p {
                        let j = choose|j: int| 0 <= j < index + 1 && midi_codes@[j] % 12 == p;
                        assert(j != index);
                    }
                }
            }
        }
        index = index + 1;
    }
    candidates
}

/// Whether a candidate is short enough for the parser.
pub open spec fn parseable_len(s: Seq<char>) -> bool {
    s.len() * 4 + 102 <= usize::MAX
}

/// The chords that the candidates parse into, in order; candidates that do not parse are left out.
pub open spec fn spec_chords_of(cands: Seq<Seq<char>>) -> Seq<ChordView>
    decreases cands.len(),
{
    if cands.len() == 0 {
        Seq::empty()
    } else {
        let prev = spec_chords_of(cands.drop_last());
        let c = cands.last();
        if parseable_len(c) {
            match spec_parse(c) {
                Ok(v) => prev.push(v),
                Err(_) => prev,
            }
        } else {
            prev
        }
    }
}

/// The chords that the given MIDI codes sound: the chord read from the lowest code as root,
/// then each inversion over the lowest code as bass, as far as each candidate parses.
pub fn from_midi_codes(midi_codes: &[u8]) -> (r: Vec<Chord>)
    ensures
        r@.map_values(|c: Chord| c@) == spec_chords_of(spec_candidates(midi_codes@, midi_codes@.len() as int)),
{
    let mut parser = Parser::new();
    let descriptors = descriptors_from_midi_codes(midi_codes);
    let ghost cands = descriptors@.map_values(|s: String| s@);
    let mut chords: Vec<Chord> = Vec::new();
    let mut k: usize = 0;
    while k < descriptors.len()
        invariant
            k <= descriptors@.len(),
            cands == descriptors@.map_values(|s: String| s@),
            chords@.map_values(|c: Chord| c@) == spec_chords_of(cands.take(k as int)),
        decreases descriptors@.len() - k,
    {
        assert(cands.take(k + 1).drop_last() =~= cands.take(k as int));
        assert(cands.take(k + 1).last() == descriptors@[k as int]@);
        let ghost before = chords@.map_values(|c: Chord| c@);
        let d = descriptors[k].as_str();
        let n = d.unicode_len();
        if n <= (usize::MAX - 102) / 4 {
            assert(n * 4 + 102 <= usize::MAX) by (nonlinear_arith)
                requires
                    n <= (usize::MAX - 102) / 4,
            ;
            match parser.parse(d) {
                Ok(c) => {
                    chords.push(c);
                    assert(chords@.map_values(|c: Chord| c@) =~= before.push(c@));
                },
                Err(_) => {},
            }
        } else {
            assert(!parseable_len(d@)) by (nonlinear_arith)
                requires
                    n > (usize::MAX - 102) / 4,
                    n == d@.len(),
            ;
        }
        k = k + 1;
    }
    assert(cands.take(descriptors@.len() as int) =~= cands);
    chords
}

} // verus!
