//! Chord qualities and the pitch-class rules that derive them.
use crate::bits::{
    below, group_bits, has_bit, lemma_below_and, lemma_below_or, lemma_below_or_single, lemma_bit_and,
    lemma_bit_and_not, lemma_bit_clear_single, lemma_bit_or, lemma_bit_or_single, lemma_bits_ext,
};
use crate::chord::interval::{
    interval_index, lemma_interval_index, IntDegree, IntDegreeSet, Interval, IntervalSet,
};
use vstd::prelude::*;

verus! {

broadcast use group_bits;

/// Pitch classes: semitones above the root within one octave.
#[derive(Debug, Clone, Copy, PartialEq, Eq, Structural, PartialOrd, Ord, Hash)]
pub enum PitchClass {
    Pc0,
    Pc1,
    Pc2,
    Pc3,
    Pc4,
    Pc5,
    Pc6,
    Pc7,
    Pc8,
    Pc9,
    Pc10,
    Pc11,
}

/// Position of a pitch class, which is its number of semitones.
pub open spec fn pc_index(p: PitchClass) -> u32 {
    match p {
        PitchClass::Pc0 => 0,
        PitchClass::Pc1 => 1,
        PitchClass::Pc2 => 2,
        PitchClass::Pc3 => 3,
        PitchClass::Pc4 => 4,
        PitchClass::Pc5 => 5,
        PitchClass::Pc6 => 6,
        PitchClass::Pc7 => 7,
        PitchClass::Pc8 => 8,
        PitchClass::Pc9 => 9,
        PitchClass::Pc10 => 10,
        PitchClass::Pc11 => 11,
    }
}

/// The pitch class of `k` semitones, for `k` below 12.
pub open spec fn pc_at(k: u32) -> PitchClass {
    if k == 0 { PitchClass::Pc0 }
    else if k == 1 { PitchClass::Pc1 }
    else if k == 2 { PitchClass::Pc2 }
    else if k == 3 { PitchClass::Pc3 }
    else if k == 4 { PitchClass::Pc4 }
    else if k == 5 { PitchClass::Pc5 }
    else if k == 6 { PitchClass::Pc6 }
    else if k == 7 { PitchClass::Pc7 }
    else if k == 8 { PitchClass::Pc8 }
    else if k == 9 { PitchClass::Pc9 }
    else if k == 10 { PitchClass::Pc10 }
    else { PitchClass::Pc11 }
}

pub broadcast proof fn lemma_pc_index(p: PitchClass)
    ensures
        #[trigger] pc_index(p) < 12,
        pc_at(pc_index(p)) == p,
{
}

impl PitchClass {
    /// Semitones of the pitch class.
    pub fn index(&self) -> (r: u32)
        ensures
            r == pc_index(*self),
            r < 12,
    {
        match self {
            PitchClass::Pc0 => 0,
            PitchClass::Pc1 => 1,
            PitchClass::Pc2 => 2,
            PitchClass::Pc3 => 3,
            PitchClass::Pc4 => 4,
            PitchClass::Pc5 => 5,
            PitchClass::Pc6 => 6,
            PitchClass::Pc7 => 7,
            PitchClass::Pc8 => 8,
            PitchClass::Pc9 => 9,
            PitchClass::Pc10 => 10,
            PitchClass::Pc11 => 11,
        }
    }

    /// The pitch class of `k` semitones.
    pub fn at(k: u32) -> (r: PitchClass)
        requires
            k < 12,
        ensures
            r == pc_at(k),
            pc_index(r) == k,
    {
        if k == 0 { PitchClass::Pc0 }
        else if k == 1 { PitchClass::Pc1 }
        else if k == 2 { PitchClass::Pc2 }
        else if k == 3 { PitchClass::Pc3 }
        else if k == 4 { PitchClass::Pc4 }
        else if k == 5 { PitchClass::Pc5 }
        else if k == 6 { PitchClass::Pc6 }
        else if k == 7 { PitchClass::Pc7 }
        else if k == 8 { PitchClass::Pc8 }
        else if k == 9 { PitchClass::Pc9 }
        else if k == 10 { PitchClass::Pc10 }
        else { PitchClass::Pc11 }
    }
}

/// A set of `PitchClass` values, kept as a bit mask indexed by declaration order.
#[derive(Debug, Clone, Copy, PartialEq, Eq, Structural, Hash)]
pub struct PitchClassSet {
    bits: u32,
}

impl View for PitchClassSet {
    type V = Set<PitchClass>;

    closed spec fn view(&self) -> Set<PitchClass> {
        Set::new(|e: PitchClass| has_bit(self.bits, pc_index(e)))
    }
}

/// The members of `s` among the first `k` positions, in declaration order.
pub open spec fn pc_order(s: Set<PitchClass>, k: nat) -> Seq<PitchClass>
    decreases k,
{
    if k == 0 {
        Seq::empty()
    } else {
        let prev = pc_order(s, (k - 1) as nat);
        let e = pc_at((k - 1) as u32);
        if s.contains(e) {
            prev.push(e)
        } else {
            prev
        }
    }
}

impl PitchClassSet {
    #[verifier::type_invariant]
    closed spec fn inv(self) -> bool {
        below(self.bits, 12)
    }

    proof fn lemma_view(&self, e: PitchClass)
        ensures
            self@.contains(e) == has_bit(self.bits, pc_index(e)),
    {
    }

    /// The empty set.
    pub fn new() -> (r: PitchClassSet)
        ensures
            r@ == Set::<PitchClass>::empty(),
    {
        proof {
            assert(0u32 < (1u32 << 12)) by (bit_vector);
        }
        let r = PitchClassSet { bits: 0 };
        assert(r@ =~= Set::<PitchClass>::empty());
        r
    }

    /// Whether `e` is in the set.
    pub fn contains(&self, e: PitchClass) -> (r: bool)
        ensures
            r == self@.contains(e),
    {
        let k = e.index();
        self.bits & (1u32 << k) != 0
    }

    /// Adds `e` to the set.
    pub fn insert(&mut self, e: PitchClass)
        ensures
            final(self)@ == old(self)@.insert(e),
    {
        proof {
            use_type_invariant(&*self);
        }
        let k = e.index();
        proof {
            lemma_below_or_single(self.bits, k, 12);
        }
        let ghost old_bits = self.bits;
        self.bits = self.bits | (1u32 << k);
        assert(self@ =~= old(self)@.insert(e)) by {
            assert forall|x: PitchClass| self@.contains(x) == old(self)@.insert(e).contains(x) by {
                lemma_bit_or_single(old_bits, k, pc_index(x));
            }
        }
    }

    /// Removes `e` from the set.
    pub fn remove(&mut self, e: PitchClass)
        ensures
            final(self)@ == old(self)@.remove(e),
    {
        proof {
            use_type_invariant(&*self);
        }
        let k = e.index();
        proof {
            lemma_below_and(self.bits, 1u32 << k, 12);
        }
        let ghost old_bits = self.bits;
        self.bits = self.bits & !(1u32 << k);
        assert(self@ =~= old(self)@.remove(e)) by {
            assert forall|x: PitchClass| self@.contains(x) == old(self)@.remove(e).contains(x) by {
                lemma_bit_clear_single(old_bits, k, pc_index(x));
            }
        }
    }

    /// The elements in either set.
    pub fn union(&self, other: &PitchClassSet) -> (r: PitchClassSet)
        ensures
            r@ == self@.union(other@),
    {
        proof {
            use_type_invariant(self);
            use_type_invariant(other);
            lemma_below_or(self.bits, other.bits, 12);
        }
        let r = PitchClassSet { bits: self.bits | other.bits };
        assert(r@ =~= self@.union(other@)) by {
            assert forall|x: PitchClass| r@.contains(x) == self@.union(other@).contains(x) by {
                lemma_bit_or(self.bits, other.bits, pc_index(x));
            }
        }
        r
    }

    /// The elements in both sets.
    pub fn intersection(&self, other: &PitchClassSet) -> (r: PitchClassSet)
        ensures
            r@ == self@.intersect(other@),
    {
        proof {
            use_type_invariant(self);
            lemma_below_and(self.bits, other.bits, 12);
        }
        let r = PitchClassSet { bits: self.bits & other.bits };
        assert(r@ =~= self@.intersect(other@)) by {
            assert forall|x: PitchClass| r@.contains(x) == self@.intersect(other@).contains(x) by {
                lemma_bit_and(self.bits, other.bits, pc_index(x));
            }
        }
        r
    }

    /// The elements of `self` that are not in `other`.
    pub fn difference(&self, other: &PitchClassSet) -> (r: PitchClassSet)
        ensures
            r@ == self@.difference(other@),
    {
        proof {
            use_type_invariant(self);
            lemma_below_and(self.bits, other.bits, 12);
        }
        let r = PitchClassSet { bits: self.bits & !other.bits };
        assert(r@ =~= self@.difference(other@)) by {
            assert forall|x: PitchClass| r@.contains(x) == self@.difference(other@).contains(x) by {
                lemma_bit_and_not(self.bits, other.bits, pc_index(x));
            }
        }
        r
    }

    /// Whether the set has no element.
    pub fn is_empty(&self) -> (r: bool)
        ensures
            r == (self@ =~= Set::<PitchClass>::empty()),
    {
        proof {
            use_type_invariant(self);
        }
        let r = self.bits == 0;
        proof {
            if !r {
                if self@ =~= Set::<PitchClass>::empty() {
                    assert forall|j: u32| j < 12 implies has_bit(self.bits, j) == has_bit(0u32, j) by {
                        assert(!self@.contains(pc_at(j)));
                    }
                    assert(0u32 < (1u32 << 12)) by (bit_vector);
                    lemma_bits_ext(self.bits, 0u32, 12);
                }
            } else {
                assert(self@ =~= Set::<PitchClass>::empty());
            }
        }
        r
    }

    /// Whether every element of `self` is in `other`.
    pub fn is_subset_of(&self, other: &PitchClassSet) -> (r: bool)
        ensures
            r == self@.subset_of(other@),
    {
        let d = self.difference(other);
        let r = d.is_empty();
        proof {
            if !r {
                let x = choose|x: PitchClass| d@.contains(x);
                assert(!d@.contains(x) || !(self@.subset_of(other@)) || !d@.contains(x));
                if !(d@ =~= Set::<PitchClass>::empty()) {
                    assert(exists|x: PitchClass| d@.contains(x));
                }
            } else {
                assert forall|x: PitchClass| self@.contains(x) implies other@.contains(x) by {
                    assert(!d@.contains(x));
                }
            }
        }
        r
    }

    /// Whether every element of `other` is in `self`.
    pub fn is_superset_of(&self, other: &PitchClassSet) -> (r: bool)
        ensures
            r == other@.subset_of(self@),
    {
        other.is_subset_of(self)
    }

    /// Whether the sets have no element in common.
    pub fn is_disjoint(&self, other: &PitchClassSet) -> (r: bool)
        ensures
            r == self@.disjoint(other@),
    {
        let i = self.intersection(other);
        let r = i.is_empty();
        proof {
            if r {
                assert forall|x: PitchClass| self@.contains(x) implies !other@.contains(x) by {
                    assert(!i@.contains(x));
                }
            } else {
                assert(exists|x: PitchClass| i@.contains(x));
            }
        }
        r
    }

    /// The elements in declaration order.
    pub fn to_vec(&self) -> (r: Vec<PitchClass>)
        ensures
            r@ == pc_order(self@, 12 as nat),
    {
        let mut r: Vec<PitchClass> = Vec::new();
        let mut k: u32 = 0;
        while k < 12
            invariant
                k <= 12,
                r@ == pc_order(self@, k as nat),
            decreases 12 - k,
        {
            let e = PitchClass::at(k);
            if self.contains(e) {
                r.push(e);
            }
            k = k + 1;
        }
        r
    }

    /// Number of elements.
    pub fn len(&self) -> (r: usize)
        ensures
            r == pc_order(self@, 12 as nat).len(),
    {
        self.to_vec().len()
    }

    /// The set holding the elements of `items`.
    pub fn from_slice(items: &[PitchClass]) -> (r: PitchClassSet)
        ensures
            r@ == items@.to_set(),
    {
        let mut r = PitchClassSet::new();
        let mut i: usize = 0;
        while i < items.len()
            invariant
                i <= items@.len(),
                r@ == items@.subrange(0, i as int).to_set(),
            decreases items@.len() - i,
        {
            r.insert(items[i]);
            assert(items@.subrange(0, i + 1) =~= items@.subrange(0, i as int).push(items@[i as int]));
            proof {
                items@.subrange(0, i as int).lemma_push_to_set_commute(items@[i as int]);
            }
            i = i + 1;
        }
        assert(items@.subrange(0, items@.len() as int) =~= items@);
        r
    }
}

/// The pitch class of an interval.
pub open spec fn pc_of_interval(i: Interval) -> PitchClass {
    match i {
        Interval::Unison => PitchClass::Pc0,
        Interval::MinorSecond => PitchClass::Pc1,
        Interval::MajorSecond => PitchClass::Pc2,
        Interval::MinorThird => PitchClass::Pc3,
        Interval::MajorThird => PitchClass::Pc4,
        Interval::PerfectFourth => PitchClass::Pc5,
        Interval::AugmentedFourth => PitchClass::Pc6,
        Interval::DiminishedFifth => PitchClass::Pc6,
        Interval::PerfectFifth => PitchClass::Pc7,
        Interval::AugmentedFifth => PitchClass::Pc8,
        Interval::MinorSixth => PitchClass::Pc8,
        Interval::MajorSixth => PitchClass::Pc9,
        Interval::DiminishedSeventh => PitchClass::Pc9,
        Interval::MinorSeventh => PitchClass::Pc10,
        Interval::MajorSeventh => PitchClass::Pc11,
        Interval::Octave => PitchClass::Pc0,
        Interval::FlatNinth => PitchClass::Pc1,
        Interval::Ninth => PitchClass::Pc2,
        Interval::SharpNinth => PitchClass::Pc3,
        Interval::Eleventh => PitchClass::Pc5,
        Interval::SharpEleventh => PitchClass::Pc6,
        Interval::FlatThirteenth => PitchClass::Pc8,
        Interval::Thirteenth => PitchClass::Pc9,
    }
}

impl PitchClass {
    /// The pitch class of an interval.
    pub fn from_interval(i: &Interval) -> (r: PitchClass)
        ensures
            r == pc_of_interval(*i),
    {
        match i {
            Interval::Unison => PitchClass::Pc0,
            Interval::MinorSecond => PitchClass::Pc1,
            Interval::MajorSecond => PitchClass::Pc2,
            Interval::MinorThird => PitchClass::Pc3,
            Interval::MajorThird => PitchClass::Pc4,
            Interval::PerfectFourth => PitchClass::Pc5,
            Interval::AugmentedFourth => PitchClass::Pc6,
            Interval::DiminishedFifth => PitchClass::Pc6,
            Interval::PerfectFifth => PitchClass::Pc7,
            Interval::AugmentedFifth => PitchClass::Pc8,
            Interval::MinorSixth => PitchClass::Pc8,
            Interval::MajorSixth => PitchClass::Pc9,
            Interval::DiminishedSeventh => PitchClass::Pc9,
            Interval::MinorSeventh => PitchClass::Pc10,
            Interval::MajorSeventh => PitchClass::Pc11,
            Interval::Octave => PitchClass::Pc0,
            Interval::FlatNinth => PitchClass::Pc1,
            Interval::Ninth => PitchClass::Pc2,
            Interval::SharpNinth => PitchClass::Pc3,
            Interval::Eleventh => PitchClass::Pc5,
            Interval::SharpEleventh => PitchClass::Pc6,
            Interval::FlatThirteenth => PitchClass::Pc8,
            Interval::Thirteenth => PitchClass::Pc9,
        }
    }
}

impl PitchClassSet {
    /// The pitch classes of a list of intervals.
    pub fn from_intervals(value: &[Interval]) -> (r: PitchClassSet)
        ensures
            r@ == value@.map_values(|i: Interval| pc_of_interval(i)).to_set(),
    {
        let mut r = PitchClassSet::new();
        let mut k: usize = 0;
        while k < value.len()
            invariant
                k <= value@.len(),
                r@ == value@.subrange(0, k as int).map_values(|i: Interval| pc_of_interval(i)).to_set(),
            decreases value@.len() - k,
        {
            let p = PitchClass::from_interval(&value[k]);
            r.insert(p);
            proof {
                let f = |i: Interval| pc_of_interval(i);
                let pre = value@.subrange(0, k as int);
                assert(value@.subrange(0, k + 1) =~= pre.push(value@[k as int]));
                assert(pre.push(value@[k as int]).map_values(f) =~= pre.map_values(f).push(p));
                pre.map_values(f).lemma_push_to_set_commute(p);
            }
            k = k + 1;
        }
        assert(value@.subrange(0, value@.len() as int) =~= value@);
        r
    }

    /// The pitch classes of a set of intervals.
    pub fn from_interval_set(value: &IntervalSet) -> (r: PitchClassSet)
        ensures
            r@ == value@.map(|i: Interval| pc_of_interval(i)),
    {
        let mut r = PitchClassSet::new();
        let mut k: u32 = 0;
        while k < 23
            invariant
                k <= 23,
                forall|p: PitchClass| r@.contains(p) <==> exists|i: Interval| value@.contains(i) && interval_index(i) < k && pc_of_interval(i) == p,
            decreases 23 - k,
        {
            let i = Interval::at(k);
            if value.contains(i) {
                r.insert(PitchClass::from_interval(&i));
            }
            proof {
                broadcast use lemma_interval_index;
                assert forall|p: PitchClass| r@.contains(p) <==> exists|j: Interval| value@.contains(j) && interval_index(j) < k + 1 && pc_of_interval(j) == p by {
                    if exists|j: Interval| value@.contains(j) && interval_index(j) < k + 1 && pc_of_interval(j) == p {
                        let j = choose|j: Interval| value@.contains(j) && interval_index(j) < k + 1 && pc_of_interval(j) == p;
                        if interval_index(j) == k {
                            assert(j == i);
                        }
                    }
                }
            }
            k = k + 1;
        }
        proof {
            broadcast use lemma_interval_index;
            assert(r@ =~= value@.map(|i: Interval| pc_of_interval(i)));
        }
        r
    }
}

pub open spec fn spec_maj_set() -> Set<PitchClass> {
    set![PitchClass::Pc4]
}
pub open spec fn spec_maj6_set() -> Set<PitchClass> {
    set![PitchClass::Pc4, PitchClass::Pc9]
}
pub open spec fn spec_maj7_set() -> Set<PitchClass> {
    set![PitchClass::Pc4, PitchClass::Pc11]
}
pub open spec fn spec_dom7_set() -> Set<PitchClass> {
    set![PitchClass::Pc4, PitchClass::Pc10]
}
pub open spec fn spec_sus7_set() -> Set<PitchClass> {
    set![PitchClass::Pc5, PitchClass::Pc10]
}
pub open spec fn spec_min_set() -> Set<PitchClass> {
    set![PitchClass::Pc3]
}
pub open spec fn spec_min6_set() -> Set<PitchClass> {
    set![PitchClass::Pc3, PitchClass::Pc9]
}
pub open spec fn spec_min7_set() -> Set<PitchClass> {
    set![PitchClass::Pc3, PitchClass::Pc10]
}
pub open spec fn spec_mima7_set() -> Set<PitchClass> {
    set![PitchClass::Pc3, PitchClass::Pc11]
}
pub open spec fn spec_aug_set() -> Set<PitchClass> {
    set![PitchClass::Pc4, PitchClass::Pc8]
}
pub open spec fn spec_dim_set() -> Set<PitchClass> {
    set![PitchClass::Pc3, PitchClass::Pc6]
}
pub open spec fn spec_dim7_set() -> Set<PitchClass> {
    set![PitchClass::Pc3, PitchClass::Pc6, PitchClass::Pc9]
}
pub open spec fn spec_pow_set() -> Set<PitchClass> {
    set![PitchClass::Pc7]
}
pub open spec fn spec_seventh_set() -> Set<PitchClass> {
    set![PitchClass::Pc10, PitchClass::Pc11]
}
pub open spec fn spec_dim_excludes() -> Set<PitchClass> {
    set![PitchClass::Pc4, PitchClass::Pc7, PitchClass::Pc10]
}
pub open spec fn spec_ext_m7() -> Set<Interval> {
    set![Interval::MajorSeventh, Interval::Ninth, Interval::Thirteenth]
}
pub open spec fn spec_ext_m11_m6() -> Set<Interval> {
    set![Interval::MajorSixth, Interval::Eleventh, Interval::Ninth, Interval::Thirteenth]
}
pub open spec fn spec_ext_m7_11() -> Set<Interval> {
    set![Interval::Eleventh, Interval::Ninth, Interval::Thirteenth, Interval::MajorSeventh]
}
pub open spec fn spec_ext_m6() -> Set<Interval> {
    set![Interval::MajorSixth, Interval::Ninth, Interval::Thirteenth]
}
pub open spec fn spec_alt_dim() -> Set<Interval> {
    set![Interval::AugmentedFifth, Interval::MinorSixth, Interval::FlatNinth, Interval::FlatThirteenth]
}
pub open spec fn spec_alt_aug() -> Set<Interval> {
    set![Interval::DiminishedFifth, Interval::FlatNinth, Interval::SharpNinth, Interval::SharpEleventh, Interval::FlatThirteenth]
}
pub open spec fn spec_alt_default() -> Set<Interval> {
    set![Interval::DiminishedFifth, Interval::AugmentedFifth, Interval::MinorSixth, Interval::FlatNinth, Interval::SharpNinth, Interval::SharpEleventh, Interval::FlatThirteenth]
}

/// The interval sets of thirds and of fifths.
pub open spec fn spec_thirds() -> Set<Interval> {
    set![Interval::MinorThird, Interval::MajorThird]
}

pub open spec fn spec_fifths() -> Set<Interval> {
    set![Interval::DiminishedFifth, Interval::PerfectFifth, Interval::AugmentedFifth]
}

/// The thirds, minor and major.
pub fn thirds_set() -> (r: IntervalSet)
    ensures
        r@ == spec_thirds(),
{
    let mut r = IntervalSet::new();
    r.insert(Interval::MinorThird);
    r.insert(Interval::MajorThird);
    r
}

/// The fifths: diminished, perfect and augmented.
pub fn fifths_set() -> (r: IntervalSet)
    ensures
        r@ == spec_fifths(),
{
    let mut r = IntervalSet::new();
    r.insert(Interval::DiminishedFifth);
    r.insert(Interval::PerfectFifth);
    r.insert(Interval::AugmentedFifth);
    r
}

/// The quality of a chord, derived from its pitch classes.
#[derive(Debug, Clone, Copy, PartialEq, Eq, Structural, Hash)]
pub enum ChordQuality {
    Maj,
    Maj6,
    Maj7,
    Dominant7,
    Mi,
    Mi6,
    Mi7,
    MiMaj7,
    Augmented,
    Diminished,
    Diminished7,
    Power,
    Bass,
}

/// Augmented: major third and augmented fifth, with no sixth or seventh.
pub open spec fn spec_is_augmented(s: Set<PitchClass>) -> bool {
    spec_aug_set().subset_of(s) && s.disjoint(spec_seventh_set()) && !s.contains(PitchClass::Pc9)
}

/// Diminished: minor third and diminished fifth, with no major third, perfect fifth or minor seventh.
pub open spec fn spec_is_diminished(s: Set<PitchClass>) -> bool {
    spec_dim_set().subset_of(s) && s.intersect(spec_dim_excludes()) =~= Set::empty()
}

/// Diminished seventh: a diminished triad with a diminished seventh.
pub open spec fn spec_is_diminished7(s: Set<PitchClass>) -> bool {
    spec_dim7_set().subset_of(s) && s.intersect(spec_dim_excludes()) =~= Set::empty()
}

/// The quality of a set of pitch classes. The rules are tried in order: a single pitch
/// class is a bass; then augmented, diminished seventh and diminished; then the first quality
/// whose pitch classes are all present, among dominant seventh, major sixth, major seventh,
/// major, minor-major seventh, minor seventh, minor sixth, minor, suspended dominant seventh and
/// power chord; major otherwise.
pub open spec fn spec_quality(s: Set<PitchClass>) -> ChordQuality {
    if pc_order(s, 12).len() == 1 { ChordQuality::Bass } else { spec_quality_rules(s) }
}

/// The quality rules after the bass rule: augmented, diminished seventh and diminished; then
/// the first quality whose pitch classes are all present; major otherwise.
pub open spec fn spec_quality_rules(s: Set<PitchClass>) -> ChordQuality {
    if spec_is_augmented(s) { ChordQuality::Augmented }
    else if spec_is_diminished7(s) { ChordQuality::Diminished7 }
    else if spec_is_diminished(s) { ChordQuality::Diminished }
    else if spec_dom7_set().subset_of(s) { ChordQuality::Dominant7 }
    else if spec_maj6_set().subset_of(s) { ChordQuality::Maj6 }
    else if spec_maj7_set().subset_of(s) { ChordQuality::Maj7 }
    else if spec_maj_set().subset_of(s) { ChordQuality::Maj }
    else if spec_mima7_set().subset_of(s) { ChordQuality::MiMaj7 }
    else if spec_min7_set().subset_of(s) { ChordQuality::Mi7 }
    else if spec_min6_set().subset_of(s) { ChordQuality::Mi6 }
    else if spec_min_set().subset_of(s) { ChordQuality::Mi }
    else if spec_sus7_set().subset_of(s) { ChordQuality::Dominant7 }
    else if spec_pow_set().subset_of(s) { ChordQuality::Power }
    else { ChordQuality::Maj }
}

/// Whether a chord of quality `q` with pitch classes `s` is suspended: not a power chord or a
/// bass, no minor third, and a fourth.
pub open spec fn spec_is_sus(q: ChordQuality, s: Set<PitchClass>) -> bool {
    match q {
        ChordQuality::Power | ChordQuality::Bass => false,
        _ => !s.contains(PitchClass::Pc3) && s.contains(PitchClass::Pc5),
    }
}

/// The pitch classes that define each quality.
pub open spec fn spec_self_mask(q: ChordQuality) -> Set<PitchClass> {
    match q {
        ChordQuality::Maj => spec_maj_set(),
        ChordQuality::Maj6 => spec_maj6_set(),
        ChordQuality::Maj7 => spec_maj7_set(),
        ChordQuality::Dominant7 => spec_dom7_set(),
        ChordQuality::Mi => spec_min_set(),
        ChordQuality::Mi6 => spec_min6_set(),
        ChordQuality::Mi7 => spec_min7_set(),
        ChordQuality::MiMaj7 => spec_mima7_set(),
        ChordQuality::Augmented => spec_aug_set(),
        ChordQuality::Diminished => spec_dim_set(),
        ChordQuality::Diminished7 => spec_dim7_set(),
        ChordQuality::Power => spec_pow_set(),
        ChordQuality::Bass => Set::empty(),
    }
}

/// The intervals that count as extensions of each quality.
pub open spec fn spec_extension_mask(q: ChordQuality) -> Set<Interval> {
    match q {
        ChordQuality::Power | ChordQuality::Bass => Set::empty(),
        ChordQuality::Diminished7 | ChordQuality::Diminished | ChordQuality::Mi6 => spec_ext_m7_11(),
        ChordQuality::Mi | ChordQuality::Mi7 | ChordQuality::MiMaj7 => spec_ext_m11_m6(),
        ChordQuality::Maj6 => spec_ext_m7(),
        ChordQuality::Dominant7 | ChordQuality::Maj7 | ChordQuality::Maj | ChordQuality::Augmented => spec_ext_m6(),
    }
}

/// The intervals that count as alterations of each quality.
pub open spec fn spec_alteration_mask(q: ChordQuality) -> Set<Interval> {
    match q {
        ChordQuality::Power | ChordQuality::Bass => Set::empty(),
        ChordQuality::Diminished | ChordQuality::Diminished7 => spec_alt_dim(),
        ChordQuality::Augmented => spec_alt_aug(),
        _ => spec_alt_default(),
    }
}

/// The degrees that a full extension of each quality stacks.
pub open spec fn spec_extension_stack(q: ChordQuality) -> Set<IntDegree> {
    match q {
        ChordQuality::Power | ChordQuality::Bass => Set::empty(),
        ChordQuality::Dominant7 | ChordQuality::Maj7 | ChordQuality::Maj | ChordQuality::Augmented =>
            set![IntDegree::Seventh, IntDegree::Ninth, IntDegree::Thirteenth],
        _ => set![IntDegree::Eleventh, IntDegree::Seventh, IntDegree::Ninth, IntDegree::Thirteenth],
    }
}

/// Whether a set of pitch classes is augmented.
pub fn is_augmented(value: &PitchClassSet) -> (r: bool)
    ensures
        r == spec_is_augmented(value@),
{
    value.is_superset_of(&ChordQuality::aug_set()) && value.is_disjoint(&ChordQuality::seventh_set())
        && !value.contains(PitchClass::Pc9)
}

/// Whether a set of pitch classes is diminished.
pub fn is_diminished(value: &PitchClassSet) -> (r: bool)
    ensures
        r == spec_is_diminished(value@),
{
    value.is_superset_of(&ChordQuality::dim_set()) && value.intersection(&ChordQuality::dim_excludes()).is_empty()
}

/// Whether a set of pitch classes is a diminished seventh.
pub fn is_diminished7(value: &PitchClassSet) -> (r: bool)
    ensures
        r == spec_is_diminished7(value@),
{
    value.is_superset_of(&ChordQuality::dim7_set()) && value.intersection(&ChordQuality::dim_excludes()).is_empty()
}

impl ChordQuality {
    fn maj_set() -> (r: PitchClassSet)
        ensures
            r@ == spec_maj_set(),
    {
        let mut r = PitchClassSet::new();
        r.insert(PitchClass::Pc4);
        r
    }
    fn maj6_set() -> (r: PitchClassSet)
        ensures
            r@ == spec_maj6_set(),
    {
        let mut r = PitchClassSet::new();
        r.insert(PitchClass::Pc4);
        r.insert(PitchClass::Pc9);
        r
    }
    fn maj7_set() -> (r: PitchClassSet)
        ensures
            r@ == spec_maj7_set(),
    {
        let mut r = PitchClassSet::new();
        r.insert(PitchClass::Pc4);
        r.insert(PitchClass::Pc11);
        r
    }
    fn dom7_set() -> (r: PitchClassSet)
        ensures
            r@ == spec_dom7_set(),
    {
        let mut r = PitchClassSet::new();
        r.insert(PitchClass::Pc4);
        r.insert(PitchClass::Pc10);
        r
    }
    fn sus7_set() -> (r: PitchClassSet)
        ensures
            r@ == spec_sus7_set(),
    {
        let mut r = PitchClassSet::new();
        r.insert(PitchClass::Pc5);
        r.insert(PitchClass::Pc10);
        r
    }
    fn min_set() -> (r: PitchClassSet)
        ensures
            r@ == spec_min_set(),
    {
        let mut r = PitchClassSet::new();
        r.insert(PitchClass::Pc3);
        r
    }
    fn min6_set() -> (r: PitchClassSet)
        ensures
            r@ == spec_min6_set(),
    {
        let mut r = PitchClassSet::new();
        r.insert(PitchClass::Pc3);
        r.insert(PitchClass::Pc9);
        r
    }
    fn min7_set() -> (r: PitchClassSet)
        ensures
            r@ == spec_min7_set(),
    {
        let mut r = PitchClassSet::new();
        r.insert(PitchClass::Pc3);
        r.insert(PitchClass::Pc10);
        r
    }
    fn mima7_set() -> (r: PitchClassSet)
        ensures
            r@ == spec_mima7_set(),
    {
        let mut r = PitchClassSet::new();
        r.insert(PitchClass::Pc3);
        r.insert(PitchClass::Pc11);
        r
    }
    fn aug_set() -> (r: PitchClassSet)
        ensures
            r@ == spec_aug_set(),
    {
        let mut r = PitchClassSet::new();
        r.insert(PitchClass::Pc4);
        r.insert(PitchClass::Pc8);
        r
    }
    fn dim_set() -> (r: PitchClassSet)
        ensures
            r@ == spec_dim_set(),
    {
        let mut r = PitchClassSet::new();
        r.insert(PitchClass::Pc3);
        r.insert(PitchClass::Pc6);
        r
    }
    fn dim7_set() -> (r: PitchClassSet)
        ensures
            r@ == spec_dim7_set(),
    {
        let mut r = PitchClassSet::new();
        r.insert(PitchClass::Pc3);
        r.insert(PitchClass::Pc6);
        r.insert(PitchClass::Pc9);
        r
    }
    fn pow_set() -> (r: PitchClassSet)
        ensures
            r@ == spec_pow_set(),
    {
        let mut r = PitchClassSet::new();
        r.insert(PitchClass::Pc7);
        r
    }
    fn seventh_set() -> (r: PitchClassSet)
        ensures
            r@ == spec_seventh_set(),
    {
        let mut r = PitchClassSet::new();
        r.insert(PitchClass::Pc10);
        r.insert(PitchClass::Pc11);
        r
    }
    fn dim_excludes() -> (r: PitchClassSet)
        ensures
            r@ == spec_dim_excludes(),
    {
        let mut r = PitchClassSet::new();
        r.insert(PitchClass::Pc4);
        r.insert(PitchClass::Pc7);
        r.insert(PitchClass::Pc10);
        r
    }
    fn ext_m7() -> (r: IntervalSet)
        ensures
            r@ == spec_ext_m7(),
    {
        let mut r = IntervalSet::new();
        r.insert(Interval::MajorSeventh);
        r.insert(Interval::Ninth);
        r.insert(Interval::Thirteenth);
        r
    }
    fn ext_m11_m6() -> (r: IntervalSet)
        ensures
            r@ == spec_ext_m11_m6(),
    {
        let mut r = IntervalSet::new();
        r.insert(Interval::MajorSixth);
        r.insert(Interval::Eleventh);
        r.insert(Interval::Ninth);
        r.insert(Interval::Thirteenth);
        r
    }
    fn ext_m7_11() -> (r: IntervalSet)
        ensures
            r@ == spec_ext_m7_11(),
    {
        let mut r = IntervalSet::new();
        r.insert(Interval::Eleventh);
        r.insert(Interval::Ninth);
        r.insert(Interval::Thirteenth);
        r.insert(Interval::MajorSeventh);
        r
    }
    fn ext_m6() -> (r: IntervalSet)
        ensures
            r@ == spec_ext_m6(),
    {
        let mut r = IntervalSet::new();
        r.insert(Interval::MajorSixth);
        r.insert(Interval::Ninth);
        r.insert(Interval::Thirteenth);
        r
    }
    fn alt_dim() -> (r: IntervalSet)
        ensures
            r@ == spec_alt_dim(),
    {
        let mut r = IntervalSet::new();
        r.insert(Interval::AugmentedFifth);
        r.insert(Interval::MinorSixth);
        r.insert(Interval::FlatNinth);
        r.insert(Interval::FlatThirteenth);
        r
    }
    fn alt_aug() -> (r: IntervalSet)
        ensures
            r@ == spec_alt_aug(),
    {
        let mut r = IntervalSet::new();
        r.insert(Interval::DiminishedFifth);
        r.insert(Interval::FlatNinth);
        r.insert(Interval::SharpNinth);
        r.insert(Interval::SharpEleventh);
        r.insert(Interval::FlatThirteenth);
        r
    }
    fn alt_default() -> (r: IntervalSet)
        ensures
            r@ == spec_alt_default(),
    {
        let mut r = IntervalSet::new();
        r.insert(Interval::DiminishedFifth);
        r.insert(Interval::AugmentedFifth);
        r.insert(Interval::MinorSixth);
        r.insert(Interval::FlatNinth);
        r.insert(Interval::SharpNinth);
        r.insert(Interval::SharpEleventh);
        r.insert(Interval::FlatThirteenth);
        r
    }

    /// The quality of a set of pitch classes.
    pub fn from_pitch_classes(value: &PitchClassSet) -> (r: ChordQuality)
        ensures
            r == spec_quality(value@),
    {
        if value.len() == 1 {
            return ChordQuality::Bass;
        }
        Self::from_rules(value)
    }

    /// The quality of a set of pitch classes by the rules after the bass rule.
    pub fn from_rules(value: &PitchClassSet) -> (r: ChordQuality)
        ensures
            r == spec_quality_rules(value@),
    {
        if is_augmented(value) {
            return ChordQuality::Augmented;
        }
        if is_diminished7(value) {
            return ChordQuality::Diminished7;
        }
        if is_diminished(value) {
            return ChordQuality::Diminished;
        }
        if value.is_superset_of(&Self::dom7_set()) { ChordQuality::Dominant7 }
        else if value.is_superset_of(&Self::maj6_set()) { ChordQuality::Maj6 }
        else if value.is_superset_of(&Self::maj7_set()) { ChordQuality::Maj7 }
        else if value.is_superset_of(&Self::maj_set()) { ChordQuality::Maj }
        else if value.is_superset_of(&Self::mima7_set()) { ChordQuality::MiMaj7 }
        else if value.is_superset_of(&Self::min7_set()) { ChordQuality::Mi7 }
        else if value.is_superset_of(&Self::min6_set()) { ChordQuality::Mi6 }
        else if value.is_superset_of(&Self::min_set()) { ChordQuality::Mi }
        else if value.is_superset_of(&Self::sus7_set()) { ChordQuality::Dominant7 }
        else if value.is_superset_of(&Self::pow_set()) { ChordQuality::Power }
        else { ChordQuality::Maj }
    }

    /// The quality of a list of intervals.
    pub fn from_intervals(value: &[Interval]) -> (r: ChordQuality)
        ensures
            r == spec_quality(value@.map_values(|i: Interval| pc_of_interval(i)).to_set()),
    {
        let pc = PitchClassSet::from_intervals(value);
        Self::from_pitch_classes(&pc)
    }

    /// Whether a chord of this quality with pitch classes `ints` is suspended.
    pub fn is_sus(&self, ints: &PitchClassSet) -> (r: bool)
        ensures
            r == spec_is_sus(*self, ints@),
    {
        match self {
            ChordQuality::Power | ChordQuality::Bass => false,
            _ => {
                let mut sus = PitchClassSet::new();
                sus.insert(PitchClass::Pc5);
                let r = !ints.contains(PitchClass::Pc3) && !ints.intersection(&sus).is_empty();
                proof {
                    if ints@.contains(PitchClass::Pc5) {
                        assert(ints@.intersect(sus@).contains(PitchClass::Pc5));
                    } else {
                        assert(ints@.intersect(sus@) =~= Set::empty());
                    }
                }
                r
            },
        }
    }

    /// The pitch classes that define this quality.
    pub fn self_mask(&self) -> (r: PitchClassSet)
        ensures
            r@ == spec_self_mask(*self),
    {
        match self {
            ChordQuality::Maj => Self::maj_set(),
            ChordQuality::Maj6 => Self::maj6_set(),
            ChordQuality::Maj7 => Self::maj7_set(),
            ChordQuality::Dominant7 => Self::dom7_set(),
            ChordQuality::Mi => Self::min_set(),
            ChordQuality::Mi6 => Self::min6_set(),
            ChordQuality::Mi7 => Self::min7_set(),
            ChordQuality::MiMaj7 => Self::mima7_set(),
            ChordQuality::Augmented => Self::aug_set(),
            ChordQuality::Diminished => Self::dim_set(),
            ChordQuality::Diminished7 => Self::dim7_set(),
            ChordQuality::Power => Self::pow_set(),
            ChordQuality::Bass => PitchClassSet::new(),
        }
    }

    /// The intervals that count as extensions of this quality.
    pub fn extension_mask(&self) -> (r: IntervalSet)
        ensures
            r@ == spec_extension_mask(*self),
    {
        match self {
            ChordQuality::Power | ChordQuality::Bass => IntervalSet::new(),
            ChordQuality::Diminished7 | ChordQuality::Diminished | ChordQuality::Mi6 => Self::ext_m7_11(),
            ChordQuality::Mi | ChordQuality::Mi7 | ChordQuality::MiMaj7 => Self::ext_m11_m6(),
            ChordQuality::Maj6 => Self::ext_m7(),
            ChordQuality::Dominant7 | ChordQuality::Maj7 | ChordQuality::Maj | ChordQuality::Augmented => Self::ext_m6(),
        }
    }

    /// The intervals that count as alterations of this quality.
    pub fn alteration_mask(&self) -> (r: IntervalSet)
        ensures
            r@ == spec_alteration_mask(*self),
    {
        match self {
            ChordQuality::Power | ChordQuality::Bass => IntervalSet::new(),
            ChordQuality::Diminished | ChordQuality::Diminished7 => Self::alt_dim(),
            ChordQuality::Augmented => Self::alt_aug(),
            _ => Self::alt_default(),
        }
    }

    /// The alterations of this quality found in `ints`.
    pub fn alterations(&self, ints: &IntervalSet) -> (r: IntervalSet)
        ensures
            r@ == spec_alteration_mask(*self).intersect(ints@),
    {
        self.alteration_mask().intersection(ints)
    }

    /// The extensions of this quality found in `ints`.
    pub fn extensions(&self, ints: &IntervalSet) -> (r: IntervalSet)
        ensures
            r@ == spec_extension_mask(*self).intersect(ints@),
    {
        self.extension_mask().intersection(ints)
    }

    /// The degrees that a full extension of this quality stacks.
    pub fn extension_stack(&self) -> (r: IntDegreeSet)
        ensures
            r@ == spec_extension_stack(*self),
    {
        let mut r = IntDegreeSet::new();
        match self {
            ChordQuality::Power | ChordQuality::Bass => {},
            ChordQuality::Dominant7 | ChordQuality::Maj7 | ChordQuality::Maj | ChordQuality::Augmented => {
                r.insert(IntDegree::Seventh);
                r.insert(IntDegree::Ninth);
                r.insert(IntDegree::Thirteenth);
            },
            _ => {
                r.insert(IntDegree::Eleventh);
                r.insert(IntDegree::Seventh);
                r.insert(IntDegree::Ninth);
                r.insert(IntDegree::Thirteenth);
            },
        }
        r
    }
}

impl Default for ChordQuality {
    fn default() -> (r: ChordQuality)
        ensures
            r == ChordQuality::Maj,
    {
        ChordQuality::Maj
    }
}

} // verus!
