//! The quality and the normalized name of a parsed chord.
use crate::chord::interval::{interval_index, lemma_interval_index, Interval, IntervalSet};
use crate::chord::note::{note_text, Note};
use crate::chord::quality::{pc_of_interval, spec_quality_rules, ChordQuality, PitchClass, PitchClassSet};
use crate::inference::normalize::{describe, spec_describe};
use crate::parsing::evaluator::Evaluator;
use vstd::prelude::*;

verus! {

/// The pitch classes of the intervals of `s` within an octave (compound intervals have pitch
/// classes of their own, which no quality rule looks at).
pub open spec fn spec_simple_pcs(s: Set<Interval>) -> Set<PitchClass> {
    Set::new(|p: PitchClass| exists|i: Interval| s.contains(i) && interval_index(i) < 15 && pc_of_interval(i) == p)
}

/// The pitch classes the quality is read from: those of the chord, with its third even when
/// it was omitted, unless the chord is only a root and a fifth.
pub open spec fn spec_virtual_pcs(s: Set<Interval>, third: Option<Interval>) -> Set<PitchClass> {
    match third {
        Some(t) => if s.remove(Interval::Unison).remove(Interval::PerfectFifth) != Set::<Interval>::empty() {
            spec_simple_pcs(s).insert(pc_of_interval(t))
        } else {
            spec_simple_pcs(s)
        },
        None => spec_simple_pcs(s),
    }
}

/// The quality of a parsed chord: a bass when it is its root alone, else by the quality rules.
pub open spec fn spec_chord_quality(s: Set<Interval>, third: Option<Interval>) -> ChordQuality {
    if s == set![Interval::Unison] {
        ChordQuality::Bass
    } else {
        spec_quality_rules(spec_virtual_pcs(s, third))
    }
}

/// The normalized name of a parsed chord: its root, its descriptor, and the name of its slash
/// bass (a bass chord has no slash bass written).
pub open spec fn spec_normalized(root: Note, s: Set<Interval>, q: ChordQuality, bass: Option<Note>) -> Seq<char> {
    note_text(root) + spec_describe(spec_simple_pcs(s), s, q, false) + match bass {
        Some(b) => if q != ChordQuality::Bass { "/"@ + note_text(b) } else { Seq::empty() },
        None => Seq::empty(),
    }
}

/// The pitch classes of the intervals of a set within an octave.
pub fn simple_pitch_classes(value: &IntervalSet) -> (r: PitchClassSet)
    ensures
        r@ == spec_simple_pcs(value@),
{
    let mut r = PitchClassSet::new();
    let mut k: u32 = 0;
    while k < 15
        invariant
            k <= 15,
            forall|p: PitchClass| r@.contains(p) <==> exists|i: Interval|
                value@.contains(i) && interval_index(i) < k && pc_of_interval(i) == p,
        decreases 15 - k,
    {
        let i = Interval::at(k);
        if value.contains(i) {
            r.insert(PitchClass::from_interval(&i));
        }
        proof {
            broadcast use lemma_interval_index;
            assert forall|p: PitchClass| r@.contains(p) <==> exists|j: Interval|
                value@.contains(j) && interval_index(j) < k + 1 && pc_of_interval(j) == p by {
                if exists|j: Interval| value@.contains(j) && interval_index(j) < k + 1 && pc_of_interval(j) == p {
                    let j = choose|j: Interval| value@.contains(j) && interval_index(j) < k + 1 && pc_of_interval(j) == p;
                    if interval_index(j) == k {
                        assert(j == i);
                    }
                }
            }
        }
        k = k + 1;
    }
    assert(r@ =~= spec_simple_pcs(value@));
    r
}

impl<'a> Evaluator<'a> {
    /// The quality of the chord.
    pub fn quality(&self) -> (r: ChordQuality)
        ensures
            r == spec_chord_quality(self.dc.interval_set@, self.dc.third),
    {
        let set = self.dc.interval_set;
        let mut rest = set;
        rest.remove(Interval::Unison);
        if set.contains(Interval::Unison) && rest.is_empty() {
            assert(set@ =~= set![Interval::Unison]);
            return ChordQuality::Bass;
        }
        proof {
            if set@ == set![Interval::Unison] {
                assert(rest@ =~= Set::<Interval>::empty());
            }
        }
        let mut pcs = simple_pitch_classes(&set);
        match self.dc.third {
            Some(t) => {
                let mut others = rest;
                others.remove(Interval::PerfectFifth);
                if !others.is_empty() {
                    pcs.insert(PitchClass::from_interval(&t));
                }
            },
            None => {},
        }
        ChordQuality::from_rules(&pcs)
    }

    /// The normalized name of the chord.
    pub fn normalize(&self) -> (r: String)
        ensures
            r@ == spec_normalized(
                self.ast.root,
                self.dc.interval_set@,
                spec_chord_quality(self.dc.interval_set@, self.dc.third),
                self.dc.bass,
            ),
    {
        let mut descriptor = self.ast.root.to_string();
        let quality = self.quality();
        let pcs = simple_pitch_classes(&self.dc.interval_set);
        let body = describe(&pcs, &self.dc.interval_set, &quality, false);
        descriptor.append(body.as_str());
        let ghost head = descriptor@;
        if quality != ChordQuality::Bass {
            match self.dc.bass {
                Some(b) => {
                    descriptor.append("/");
                    let name = b.to_string();
                    descriptor.append(name.as_str());
                },
                None => {},
            }
        }
        proof {
            reveal_strlit("");
            if quality == ChordQuality::Bass || self.dc.bass is None {
                assert(descriptor@ =~= head + Seq::<char>::empty());
            }
        }
        descriptor
    }
}

} // verus!
