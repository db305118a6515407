//! Intervals of a chord, their degrees and sets of them.
use crate::bits::{
    below, group_bits, has_bit, lemma_below_and, lemma_below_or, lemma_below_or_single, lemma_bit_and,
    lemma_bit_and_not, lemma_bit_clear_single, lemma_bit_or, lemma_bit_or_single, lemma_bits_ext,
};
use crate::text::str_eq;
use vstd::prelude::*;

verus! {

broadcast use group_bits;

/// Intervals of a chord, measured from its root.
#[derive(Debug, Clone, Copy, PartialEq, Eq, Structural, PartialOrd, Ord, Hash)]
pub enum Interval {
    Unison,
    MinorSecond,
    MajorSecond,
    MinorThird,
    MajorThird,
    PerfectFourth,
    AugmentedFourth,
    DiminishedFifth,
    PerfectFifth,
    AugmentedFifth,
    MinorSixth,
    MajorSixth,
    DiminishedSeventh,
    MinorSeventh,
    MajorSeventh,
    Octave,
    FlatNinth,
    Ninth,
    SharpNinth,
    Eleventh,
    SharpEleventh,
    FlatThirteenth,
    Thirteenth,
}

/// Number of distinct intervals.
pub const INTERVAL_COUNT: u32 = 23;

/// Position of an interval in declaration order, which is also ascending semitone order.
pub open spec fn interval_index(i: Interval) -> u32 {
    match i {
        Interval::Unison => 0,
        Interval::MinorSecond => 1,
        Interval::MajorSecond => 2,
        Interval::MinorThird => 3,
        Interval::MajorThird => 4,
        Interval::PerfectFourth => 5,
        Interval::AugmentedFourth => 6,
        Interval::DiminishedFifth => 7,
        Interval::PerfectFifth => 8,
        Interval::AugmentedFifth => 9,
        Interval::MinorSixth => 10,
        Interval::MajorSixth => 11,
        Interval::DiminishedSeventh => 12,
        Interval::MinorSeventh => 13,
        Interval::MajorSeventh => 14,
        Interval::Octave => 15,
        Interval::FlatNinth => 16,
        Interval::Ninth => 17,
        Interval::SharpNinth => 18,
        Interval::Eleventh => 19,
        Interval::SharpEleventh => 20,
        Interval::FlatThirteenth => 21,
        Interval::Thirteenth => 22,
    }
}

/// The interval at a given position of the declaration order.
pub open spec fn interval_at(k: u32) -> Interval {
    if k == 0 { Interval::Unison }
    else if k == 1 { Interval::MinorSecond }
    else if k == 2 { Interval::MajorSecond }
    else if k == 3 { Interval::MinorThird }
    else if k == 4 { Interval::MajorThird }
    else if k == 5 { Interval::PerfectFourth }
    else if k == 6 { Interval::AugmentedFourth }
    else if k == 7 { Interval::DiminishedFifth }
    else if k == 8 { Interval::PerfectFifth }
    else if k == 9 { Interval::AugmentedFifth }
    else if k == 10 { Interval::MinorSixth }
    else if k == 11 { Interval::MajorSixth }
    else if k == 12 { Interval::DiminishedSeventh }
    else if k == 13 { Interval::MinorSeventh }
    else if k == 14 { Interval::MajorSeventh }
    else if k == 15 { Interval::Octave }
    else if k == 16 { Interval::FlatNinth }
    else if k == 17 { Interval::Ninth }
    else if k == 18 { Interval::SharpNinth }
    else if k == 19 { Interval::Eleventh }
    else if k == 20 { Interval::SharpEleventh }
    else if k == 21 { Interval::FlatThirteenth }
    else { Interval::Thirteenth }
}

pub broadcast proof fn lemma_interval_index(i: Interval)
    ensures
        #[trigger] interval_index(i) < INTERVAL_COUNT,
        interval_at(interval_index(i)) == i,
{
}

pub broadcast proof fn lemma_interval_at(k: u32)
    requires
        k < INTERVAL_COUNT,
    ensures
        interval_index(#[trigger] interval_at(k)) == k,
{
}

/// Semitones from the root.
pub open spec fn spec_st(i: Interval) -> u8 {
    match i {
        Interval::Unison => 0,
        Interval::MinorSecond => 1,
        Interval::MajorSecond => 2,
        Interval::MinorThird => 3,
        Interval::MajorThird => 4,
        Interval::PerfectFourth => 5,
        Interval::AugmentedFourth => 6,
        Interval::DiminishedFifth => 6,
        Interval::PerfectFifth => 7,
        Interval::AugmentedFifth => 8,
        Interval::MinorSixth => 8,
        Interval::MajorSixth => 9,
        Interval::DiminishedSeventh => 9,
        Interval::MinorSeventh => 10,
        Interval::MajorSeventh => 11,
        Interval::Octave => 12,
        Interval::FlatNinth => 13,
        Interval::Ninth => 14,
        Interval::SharpNinth => 15,
        Interval::Eleventh => 17,
        Interval::SharpEleventh => 18,
        Interval::FlatThirteenth => 20,
        Interval::Thirteenth => 21,
    }
}

/// The natural degree of an interval.
pub open spec fn spec_degree(i: Interval) -> IntDegree {
    match i {
        Interval::Unison | Interval::Octave => IntDegree::Root,
        Interval::MinorSecond | Interval::MajorSecond => IntDegree::Second,
        Interval::MinorThird | Interval::MajorThird => IntDegree::Third,
        Interval::PerfectFourth | Interval::AugmentedFourth => IntDegree::Fourth,
        Interval::DiminishedFifth | Interval::PerfectFifth | Interval::AugmentedFifth => IntDegree::Fifth,
        Interval::MinorSixth | Interval::MajorSixth => IntDegree::Sixth,
        Interval::DiminishedSeventh | Interval::MinorSeventh | Interval::MajorSeventh => IntDegree::Seventh,
        Interval::FlatNinth | Interval::Ninth | Interval::SharpNinth => IntDegree::Ninth,
        Interval::Eleventh | Interval::SharpEleventh => IntDegree::Eleventh,
        Interval::FlatThirteenth | Interval::Thirteenth => IntDegree::Thirteenth,
    }
}

/// The degree that the conversion `IntDegree::from` gives an interval; it differs from
/// `spec_degree` only on the diminished fifth, which it counts as a fourth.
pub open spec fn spec_degree_from(i: Interval) -> IntDegree {
    match i {
        Interval::DiminishedFifth => IntDegree::Fourth,
        _ => spec_degree(i),
    }
}

/// The chord-symbol notation of an interval.
pub open spec fn spec_notation(i: Interval) -> Seq<char> {
    match i {
        Interval::Unison => "1"@,
        Interval::MinorSecond => "b2"@,
        Interval::MajorSecond => "2"@,
        Interval::MinorThird => "b3"@,
        Interval::MajorThird => "3"@,
        Interval::PerfectFourth => "4"@,
        Interval::AugmentedFourth => "#4"@,
        Interval::DiminishedFifth => "b5"@,
        Interval::PerfectFifth => "5"@,
        Interval::AugmentedFifth => "#5"@,
        Interval::MinorSixth => "b6"@,
        Interval::MajorSixth => "6"@,
        Interval::DiminishedSeventh => "bb7"@,
        Interval::MinorSeventh => "7"@,
        Interval::MajorSeventh => "Ma7"@,
        Interval::Octave => "8"@,
        Interval::FlatNinth => "b9"@,
        Interval::Ninth => "9"@,
        Interval::SharpNinth => "#9"@,
        Interval::Eleventh => "11"@,
        Interval::SharpEleventh => "#11"@,
        Interval::FlatThirteenth => "b13"@,
        Interval::Thirteenth => "13"@,
    }
}

/// The interval that a chord-symbol notation names, if any.
pub open spec fn spec_from_notation(s: Seq<char>) -> Option<Interval> {
    if s == "1"@ { Some(Interval::Unison) }
    else if s == "b2"@ { Some(Interval::MinorSecond) }
    else if s == "2"@ { Some(Interval::MajorSecond) }
    else if s == "b3"@ { Some(Interval::MinorThird) }
    else if s == "3"@ { Some(Interval::MajorThird) }
    else if s == "4"@ { Some(Interval::PerfectFourth) }
    else if s == "#4"@ { Some(Interval::AugmentedFourth) }
    else if s == "b5"@ { Some(Interval::DiminishedFifth) }
    else if s == "5"@ { Some(Interval::PerfectFifth) }
    else if s == "#5"@ { Some(Interval::AugmentedFifth) }
    else if s == "b6"@ { Some(Interval::MinorSixth) }
    else if s == "6"@ { Some(Interval::MajorSixth) }
    else if s == "bb7"@ { Some(Interval::DiminishedSeventh) }
    else if s == "7"@ { Some(Interval::MinorSeventh) }
    else if s == "maj7"@ { Some(Interval::MajorSeventh) }
    else if s == "8"@ { Some(Interval::Octave) }
    else if s == "b9"@ { Some(Interval::FlatNinth) }
    else if s == "9"@ { Some(Interval::Ninth) }
    else if s == "#9"@ { Some(Interval::SharpNinth) }
    else if s == "11"@ { Some(Interval::Eleventh) }
    else if s == "#11"@ { Some(Interval::SharpEleventh) }
    else if s == "b13"@ { Some(Interval::FlatThirteenth) }
    else if s == "13"@ { Some(Interval::Thirteenth) }
    else { None }
}


impl Interval {
    /// Position of the interval in declaration order.
    pub fn index(&self) -> (r: u32)
        ensures
            r == interval_index(*self),
            r < INTERVAL_COUNT,
    {
        match self {
            Interval::Unison => 0,
            Interval::MinorSecond => 1,
            Interval::MajorSecond => 2,
            Interval::MinorThird => 3,
            Interval::MajorThird => 4,
            Interval::PerfectFourth => 5,
            Interval::AugmentedFourth => 6,
            Interval::DiminishedFifth => 7,
            Interval::PerfectFifth => 8,
            Interval::AugmentedFifth => 9,
            Interval::MinorSixth => 10,
            Interval::MajorSixth => 11,
            Interval::DiminishedSeventh => 12,
            Interval::MinorSeventh => 13,
            Interval::MajorSeventh => 14,
            Interval::Octave => 15,
            Interval::FlatNinth => 16,
            Interval::Ninth => 17,
            Interval::SharpNinth => 18,
            Interval::Eleventh => 19,
            Interval::SharpEleventh => 20,
            Interval::FlatThirteenth => 21,
            Interval::Thirteenth => 22,
        }
    }

    /// The interval at position `k` of the declaration order.
    pub fn at(k: u32) -> (r: Interval)
        requires
            k < INTERVAL_COUNT,
        ensures
            r == interval_at(k),
            interval_index(r) == k,
    {
        if k == 0 { Interval::Unison }
        else if k == 1 { Interval::MinorSecond }
        else if k == 2 { Interval::MajorSecond }
        else if k == 3 { Interval::MinorThird }
        else if k == 4 { Interval::MajorThird }
        else if k == 5 { Interval::PerfectFourth }
        else if k == 6 { Interval::AugmentedFourth }
        else if k == 7 { Interval::DiminishedFifth }
        else if k == 8 { Interval::PerfectFifth }
        else if k == 9 { Interval::AugmentedFifth }
        else if k == 10 { Interval::MinorSixth }
        else if k == 11 { Interval::MajorSixth }
        else if k == 12 { Interval::DiminishedSeventh }
        else if k == 13 { Interval::MinorSeventh }
        else if k == 14 { Interval::MajorSeventh }
        else if k == 15 { Interval::Octave }
        else if k == 16 { Interval::FlatNinth }
        else if k == 17 { Interval::Ninth }
        else if k == 18 { Interval::SharpNinth }
        else if k == 19 { Interval::Eleventh }
        else if k == 20 { Interval::SharpEleventh }
        else if k == 21 { Interval::FlatThirteenth }
        else { Interval::Thirteenth }
    }

    /// Returns the semitones from the root of the interval.
    pub fn st(&self) -> (r: u8)
        ensures
            r == spec_st(*self),
    {
        match self {
            Interval::Unison => 0,
            Interval::MinorSecond => 1,
            Interval::MajorSecond => 2,
            Interval::MinorThird => 3,
            Interval::MajorThird => 4,
            Interval::PerfectFourth => 5,
            Interval::AugmentedFourth => 6,
            Interval::DiminishedFifth => 6,
            Interval::PerfectFifth => 7,
            Interval::AugmentedFifth => 8,
            Interval::MinorSixth => 8,
            Interval::MajorSixth => 9,
            Interval::DiminishedSeventh => 9,
            Interval::MinorSeventh => 10,
            Interval::MajorSeventh => 11,
            Interval::Octave => 12,
            Interval::FlatNinth => 13,
            Interval::Ninth => 14,
            Interval::SharpNinth => 15,
            Interval::Eleventh => 17,
            Interval::SharpEleventh => 18,
            Interval::FlatThirteenth => 20,
            Interval::Thirteenth => 21,
        }
    }

    /// Transforms the interval into its degree, i.e. its natural form.
    pub fn to_degree(&self) -> (r: IntDegree)
        ensures
            r == spec_degree(*self),
    {
        match self {
            Interval::Unison | Interval::Octave => IntDegree::Root,
            Interval::MinorSecond | Interval::MajorSecond => IntDegree::Second,
            Interval::MinorThird | Interval::MajorThird => IntDegree::Third,
            Interval::PerfectFourth | Interval::AugmentedFourth => IntDegree::Fourth,
            Interval::DiminishedFifth | Interval::PerfectFifth | Interval::AugmentedFifth => IntDegree::Fifth,
            Interval::MinorSixth | Interval::MajorSixth => IntDegree::Sixth,
            Interval::DiminishedSeventh | Interval::MinorSeventh | Interval::MajorSeventh => IntDegree::Seventh,
            Interval::FlatNinth | Interval::Ninth | Interval::SharpNinth => IntDegree::Ninth,
            Interval::Eleventh | Interval::SharpEleventh => IntDegree::Eleventh,
            Interval::FlatThirteenth | Interval::Thirteenth => IntDegree::Thirteenth,
        }
    }

    /// The degree of the interval as the library's interval-to-degree conversion gives it
    /// (the diminished fifth counts as a fourth there).
    pub fn degree_from(&self) -> (r: IntDegree)
        ensures
            r == spec_degree_from(*self),
    {
        match self {
            Interval::DiminishedFifth => IntDegree::Fourth,
            _ => self.to_degree(),
        }
    }

    /// Transforms the interval into its chord notation form.
    pub fn to_chord_notation(&self) -> (r: &'static str)
        ensures
            r@ == spec_notation(*self),
    {
        match self {
            Interval::Unison => "1",
            Interval::MinorSecond => "b2",
            Interval::MajorSecond => "2",
            Interval::MinorThird => "b3",
            Interval::MajorThird => "3",
            Interval::PerfectFourth => "4",
            Interval::AugmentedFourth => "#4",
            Interval::DiminishedFifth => "b5",
            Interval::PerfectFifth => "5",
            Interval::AugmentedFifth => "#5",
            Interval::MinorSixth => "b6",
            Interval::MajorSixth => "6",
            Interval::DiminishedSeventh => "bb7",
            Interval::MinorSeventh => "7",
            Interval::MajorSeventh => "Ma7",
            Interval::Octave => "8",
            Interval::FlatNinth => "b9",
            Interval::Ninth => "9",
            Interval::SharpNinth => "#9",
            Interval::Eleventh => "11",
            Interval::SharpEleventh => "#11",
            Interval::FlatThirteenth => "b13",
            Interval::Thirteenth => "13",
        }
    }

    /// The interval named by a chord notation such as `b9` or `#11`, if any.
    pub fn from_chord_notation(i: &str) -> (r: Option<Interval>)
        ensures
            r == spec_from_notation(i@),
    {
        if str_eq(i, "1") { Some(Interval::Unison) }
        else if str_eq(i, "b2") { Some(Interval::MinorSecond) }
        else if str_eq(i, "2") { Some(Interval::MajorSecond) }
        else if str_eq(i, "b3") { Some(Interval::MinorThird) }
        else if str_eq(i, "3") { Some(Interval::MajorThird) }
        else if str_eq(i, "4") { Some(Interval::PerfectFourth) }
        else if str_eq(i, "#4") { Some(Interval::AugmentedFourth) }
        else if str_eq(i, "b5") { Some(Interval::DiminishedFifth) }
        else if str_eq(i, "5") { Some(Interval::PerfectFifth) }
        else if str_eq(i, "#5") { Some(Interval::AugmentedFifth) }
        else if str_eq(i, "b6") { Some(Interval::MinorSixth) }
        else if str_eq(i, "6") { Some(Interval::MajorSixth) }
        else if str_eq(i, "bb7") { Some(Interval::DiminishedSeventh) }
        else if str_eq(i, "7") { Some(Interval::MinorSeventh) }
        else if str_eq(i, "maj7") { Some(Interval::MajorSeventh) }
        else if str_eq(i, "8") { Some(Interval::Octave) }
        else if str_eq(i, "b9") { Some(Interval::FlatNinth) }
        else if str_eq(i, "9") { Some(Interval::Ninth) }
        else if str_eq(i, "#9") { Some(Interval::SharpNinth) }
        else if str_eq(i, "11") { Some(Interval::Eleventh) }
        else if str_eq(i, "#11") { Some(Interval::SharpEleventh) }
        else if str_eq(i, "b13") { Some(Interval::FlatThirteenth) }
        else if str_eq(i, "13") { Some(Interval::Thirteenth) }
        else { None }
    }
}

/// Interval degrees, used to spell the notes of a chord with the right letter.
#[derive(Debug, Clone, Copy, PartialEq, Eq, Structural, PartialOrd, Ord, Hash)]
pub enum IntDegree {
    Root,
    Second,
    Third,
    Fourth,
    Fifth,
    Sixth,
    Seventh,
    Ninth,
    Eleventh,
    Thirteenth,
}

/// Numeric value of a degree (1 for the root, 13 for the thirteenth).
pub open spec fn spec_numeric(d: IntDegree) -> u8 {
    match d {
        IntDegree::Root => 1,
        IntDegree::Second => 2,
        IntDegree::Third => 3,
        IntDegree::Fourth => 4,
        IntDegree::Fifth => 5,
        IntDegree::Sixth => 6,
        IntDegree::Seventh => 7,
        IntDegree::Ninth => 9,
        IntDegree::Eleventh => 11,
        IntDegree::Thirteenth => 13,
    }
}

/// Position of a degree in declaration order.
pub open spec fn degree_index(d: IntDegree) -> u32 {
    match d {
        IntDegree::Root => 0,
        IntDegree::Second => 1,
        IntDegree::Third => 2,
        IntDegree::Fourth => 3,
        IntDegree::Fifth => 4,
        IntDegree::Sixth => 5,
        IntDegree::Seventh => 6,
        IntDegree::Ninth => 7,
        IntDegree::Eleventh => 8,
        IntDegree::Thirteenth => 9,
    }
}


/// The degree at a given position of the declaration order.
pub open spec fn degree_at(k: u32) -> IntDegree {
    if k == 0 { IntDegree::Root }
    else if k == 1 { IntDegree::Second }
    else if k == 2 { IntDegree::Third }
    else if k == 3 { IntDegree::Fourth }
    else if k == 4 { IntDegree::Fifth }
    else if k == 5 { IntDegree::Sixth }
    else if k == 6 { IntDegree::Seventh }
    else if k == 7 { IntDegree::Ninth }
    else if k == 8 { IntDegree::Eleventh }
    else { IntDegree::Thirteenth }
}

pub broadcast proof fn lemma_degree_index(d: IntDegree)
    ensures
        #[trigger] degree_index(d) < 10,
        degree_at(degree_index(d)) == d,
{
}

pub broadcast proof fn lemma_degree_at(k: u32)
    requires
        k < 10,
    ensures
        degree_index(#[trigger] degree_at(k)) == k,
{
}

impl IntDegree {
    /// Numeric representation of the interval degree.
    pub fn numeric(&self) -> (r: u8)
        ensures
            r == spec_numeric(*self),
    {
        match self {
            IntDegree::Root => 1,
            IntDegree::Second => 2,
            IntDegree::Third => 3,
            IntDegree::Fourth => 4,
            IntDegree::Fifth => 5,
            IntDegree::Sixth => 6,
            IntDegree::Seventh => 7,
            IntDegree::Ninth => 9,
            IntDegree::Eleventh => 11,
            IntDegree::Thirteenth => 13,
        }
    }


    /// The degree at position `k` of the declaration order.
    pub fn at(k: u32) -> (r: IntDegree)
        requires
            k < 10,
        ensures
            r == degree_at(k),
            degree_index(r) == k,
    {
        if k == 0 { IntDegree::Root }
        else if k == 1 { IntDegree::Second }
        else if k == 2 { IntDegree::Third }
        else if k == 3 { IntDegree::Fourth }
        else if k == 4 { IntDegree::Fifth }
        else if k == 5 { IntDegree::Sixth }
        else if k == 6 { IntDegree::Seventh }
        else if k == 7 { IntDegree::Ninth }
        else if k == 8 { IntDegree::Eleventh }
        else { IntDegree::Thirteenth }
    }

    /// Position of the degree in declaration order.
    pub fn index(&self) -> (r: u32)
        ensures
            r == degree_index(*self),
            r < 10,
    {
        match self {
            IntDegree::Root => 0,
            IntDegree::Second => 1,
            IntDegree::Third => 2,
            IntDegree::Fourth => 3,
            IntDegree::Fifth => 4,
            IntDegree::Sixth => 5,
            IntDegree::Seventh => 6,
            IntDegree::Ninth => 7,
            IntDegree::Eleventh => 8,
            IntDegree::Thirteenth => 9,
        }
    }
}


/// A set of `Interval` values, kept as a bit mask indexed by declaration order.
#[derive(Debug, Clone, Copy, PartialEq, Eq, Structural, Hash)]
pub struct IntervalSet {
    bits: u32,
}

impl View for IntervalSet {
    type V = Set<Interval>;

    closed spec fn view(&self) -> Set<Interval> {
        Set::new(|e: Interval| has_bit(self.bits, interval_index(e)))
    }
}

/// The members of `s` among the first `k` positions, in declaration order.
pub open spec fn interval_order(s: Set<Interval>, k: nat) -> Seq<Interval>
    decreases k,
{
    if k == 0 {
        Seq::empty()
    } else {
        let prev = interval_order(s, (k - 1) as nat);
        let e = interval_at((k - 1) as u32);
        if s.contains(e) {
            prev.push(e)
        } else {
            prev
        }
    }
}

impl IntervalSet {
    #[verifier::type_invariant]
    closed spec fn inv(self) -> bool {
        below(self.bits, 23)
    }

    proof fn lemma_view(&self, e: Interval)
        ensures
            self@.contains(e) == has_bit(self.bits, interval_index(e)),
    {
    }

    /// The empty set.
    pub fn new() -> (r: IntervalSet)
        ensures
            r@ == Set::<Interval>::empty(),
    {
        proof {
            assert(0u32 < (1u32 << 23)) by (bit_vector);
        }
        let r = IntervalSet { bits: 0 };
        assert(r@ =~= Set::<Interval>::empty());
        r
    }

    /// Whether `e` is in the set.
    pub fn contains(&self, e: Interval) -> (r: bool)
        ensures
            r == self@.contains(e),
    {
        let k = e.index();
        self.bits & (1u32 << k) != 0
    }

    /// Adds `e` to the set.
    pub fn insert(&mut self, e: Interval)
        ensures
            final(self)@ == old(self)@.insert(e),
    {
        proof {
            use_type_invariant(&*self);
        }
        let k = e.index();
        proof {
            lemma_below_or_single(self.bits, k, 23);
        }
        let ghost old_bits = self.bits;
        self.bits = self.bits | (1u32 << k);
        assert(self@ =~= old(self)@.insert(e)) by {
            assert forall|x: Interval| self@.contains(x) == old(self)@.insert(e).contains(x) by {
                lemma_bit_or_single(old_bits, k, interval_index(x));
            }
        }
    }

    /// Removes `e` from the set.
    pub fn remove(&mut self, e: Interval)
        ensures
            final(self)@ == old(self)@.remove(e),
    {
        proof {
            use_type_invariant(&*self);
        }
        let k = e.index();
        proof {
            lemma_below_and(self.bits, 1u32 << k, 23);
        }
        let ghost old_bits = self.bits;
        self.bits = self.bits & !(1u32 << k);
        assert(self@ =~= old(self)@.remove(e)) by {
            assert forall|x: Interval| self@.contains(x) == old(self)@.remove(e).contains(x) by {
                lemma_bit_clear_single(old_bits, k, interval_index(x));
            }
        }
    }

    /// The elements in either set.
    pub fn union(&self, other: &IntervalSet) -> (r: IntervalSet)
        ensures
            r@ == self@.union(other@),
    {
        proof {
            use_type_invariant(self);
            use_type_invariant(other);
            lemma_below_or(self.bits, other.bits, 23);
        }
        let r = IntervalSet { bits: self.bits | other.bits };
        assert(r@ =~= self@.union(other@)) by {
            assert forall|x: Interval| r@.contains(x) == self@.union(other@).contains(x) by {
                lemma_bit_or(self.bits, other.bits, interval_index(x));
            }
        }
        r
    }

    /// The elements in both sets.
    pub fn intersection(&self, other: &IntervalSet) -> (r: IntervalSet)
        ensures
            r@ == self@.intersect(other@),
    {
        proof {
            use_type_invariant(self);
            lemma_below_and(self.bits, other.bits, 23);
        }
        let r = IntervalSet { bits: self.bits & other.bits };
        assert(r@ =~= self@.intersect(other@)) by {
            assert forall|x: Interval| r@.contains(x) == self@.intersect(other@).contains(x) by {
                lemma_bit_and(self.bits, other.bits, interval_index(x));
            }
        }
        r
    }

    /// The elements of `self` that are not in `other`.
    pub fn difference(&self, other: &IntervalSet) -> (r: IntervalSet)
        ensures
            r@ == self@.difference(other@),
    {
        proof {
            use_type_invariant(self);
            lemma_below_and(self.bits, other.bits, 23);
        }
        let r = IntervalSet { bits: self.bits & !other.bits };
        assert(r@ =~= self@.difference(other@)) by {
            assert forall|x: Interval| r@.contains(x) == self@.difference(other@).contains(x) by {
                lemma_bit_and_not(self.bits, other.bits, interval_index(x));
            }
        }
        r
    }

    /// Whether the set has no element.
    pub fn is_empty(&self) -> (r: bool)
        ensures
            r == (self@ =~= Set::<Interval>::empty()),
    {
        proof {
            use_type_invariant(self);
        }
        let r = self.bits == 0;
        proof {
            broadcast use lemma_interval_index, lemma_interval_at, lemma_degree_index, lemma_degree_at;
            if !r {
                if self@ =~= Set::<Interval>::empty() {
                    assert forall|j: u32| j < 23 implies has_bit(self.bits, j) == has_bit(0u32, j) by {
                        assert(!self@.contains(interval_at(j)));
                    }
                    assert(0u32 < (1u32 << 23)) by (bit_vector);
                    lemma_bits_ext(self.bits, 0u32, 23);
                }
            } else {
                assert(self@ =~= Set::<Interval>::empty());
            }
        }
        r
    }

    /// Whether every element of `self` is in `other`.
    pub fn is_subset_of(&self, other: &IntervalSet) -> (r: bool)
        ensures
            r == self@.subset_of(other@),
    {
        let d = self.difference(other);
        let r = d.is_empty();
        proof {
            if !r {
                let x = choose|x: Interval| d@.contains(x);
                assert(!d@.contains(x) || !(self@.subset_of(other@)) || !d@.contains(x));
                if !(d@ =~= Set::<Interval>::empty()) {
                    assert(exists|x: Interval| d@.contains(x));
                }
            } else {
                assert forall|x: Interval| self@.contains(x) implies other@.contains(x) by {
                    assert(!d@.contains(x));
                }
            }
        }
        r
    }

    /// Whether every element of `other` is in `self`.
    pub fn is_superset_of(&self, other: &IntervalSet) -> (r: bool)
        ensures
            r == other@.subset_of(self@),
    {
        other.is_subset_of(self)
    }

    /// Whether the sets have no element in common.
    pub fn is_disjoint(&self, other: &IntervalSet) -> (r: bool)
        ensures
            r == self@.disjoint(other@),
    {
        let i = self.intersection(other);
        let r = i.is_empty();
        proof {
            if r {
                assert forall|x: Interval| self@.contains(x) implies !other@.contains(x) by {
                    assert(!i@.contains(x));
                }
            } else {
                assert(exists|x: Interval| i@.contains(x));
            }
        }
        r
    }

    /// The elements in declaration order.
    pub fn to_vec(&self) -> (r: Vec<Interval>)
        ensures
            r@ == interval_order(self@, 23 as nat),
    {
        let mut r: Vec<Interval> = Vec::new();
        let mut k: u32 = 0;
        while k < 23
            invariant
                k <= 23,
                r@ == interval_order(self@, k as nat),
            decreases 23 - k,
        {
            let e = Interval::at(k);
            if self.contains(e) {
                r.push(e);
            }
            k = k + 1;
        }
        r
    }

    /// Number of elements.
    pub fn len(&self) -> (r: usize)
        ensures
            r == interval_order(self@, 23 as nat).len(),
    {
        self.to_vec().len()
    }

    /// The set holding the elements of `items`.
    pub fn from_slice(items: &[Interval]) -> (r: IntervalSet)
        ensures
            r@ == items@.to_set(),
    {
        let mut r = IntervalSet::new();
        let mut i: usize = 0;
        while i < items.len()
            invariant
                i <= items@.len(),
                r@ == items@.subrange(0, i as int).to_set(),
            decreases items@.len() - i,
        {
            r.insert(items[i]);
            assert(items@.subrange(0, i + 1) =~= items@.subrange(0, i as int).push(items@[i as int]));
            proof {
                items@.subrange(0, i as int).lemma_push_to_set_commute(items@[i as int]);
            }
            i = i + 1;
        }
        assert(items@.subrange(0, items@.len() as int) =~= items@);
        r
    }
}

/// A set of `IntDegree` values, kept as a bit mask indexed by declaration order.
#[derive(Debug, Clone, Copy, PartialEq, Eq, Structural, Hash)]
pub struct IntDegreeSet {
    bits: u32,
}

impl View for IntDegreeSet {
    type V = Set<IntDegree>;

    closed spec fn view(&self) -> Set<IntDegree> {
        Set::new(|e: IntDegree| has_bit(self.bits, degree_index(e)))
    }
}

/// The members of `s` among the first `k` positions, in declaration order.
pub open spec fn degree_order(s: Set<IntDegree>, k: nat) -> Seq<IntDegree>
    decreases k,
{
    if k == 0 {
        Seq::empty()
    } else {
        let prev = degree_order(s, (k - 1) as nat);
        let e = degree_at((k - 1) as u32);
        if s.contains(e) {
            prev.push(e)
        } else {
            prev
        }
    }
}

impl IntDegreeSet {
    #[verifier::type_invariant]
    closed spec fn inv(self) -> bool {
        below(self.bits, 10)
    }

    proof fn lemma_view(&self, e: IntDegree)
        ensures
            self@.contains(e) == has_bit(self.bits, degree_index(e)),
    {
    }

    /// The empty set.
    pub fn new() -> (r: IntDegreeSet)
        ensures
            r@ == Set::<IntDegree>::empty(),
    {
        proof {
            assert(0u32 < (1u32 << 10)) by (bit_vector);
        }
        let r = IntDegreeSet { bits: 0 };
        assert(r@ =~= Set::<IntDegree>::empty());
        r
    }

    /// Whether `e` is in the set.
    pub fn contains(&self, e: IntDegree) -> (r: bool)
        ensures
            r == self@.contains(e),
    {
        let k = e.index();
        self.bits & (1u32 << k) != 0
    }

    /// Adds `e` to the set.
    pub fn insert(&mut self, e: IntDegree)
        ensures
            final(self)@ == old(self)@.insert(e),
    {
        proof {
            use_type_invariant(&*self);
        }
        let k = e.index();
        proof {
            lemma_below_or_single(self.bits, k, 10);
        }
        let ghost old_bits = self.bits;
        self.bits = self.bits | (1u32 << k);
        assert(self@ =~= old(self)@.insert(e)) by {
            assert forall|x: IntDegree| self@.contains(x) == old(self)@.insert(e).contains(x) by {
                lemma_bit_or_single(old_bits, k, degree_index(x));
            }
        }
    }

    /// Removes `e` from the set.
    pub fn remove(&mut self, e: IntDegree)
        ensures
            final(self)@ == old(self)@.remove(e),
    {
        proof {
            use_type_invariant(&*self);
        }
        let k = e.index();
        proof {
            lemma_below_and(self.bits, 1u32 << k, 10);
        }
        let ghost old_bits = self.bits;
        self.bits = self.bits & !(1u32 << k);
        assert(self@ =~= old(self)@.remove(e)) by {
            assert forall|x: IntDegree| self@.contains(x) == old(self)@.remove(e).contains(x) by {
                lemma_bit_clear_single(old_bits, k, degree_index(x));
            }
        }
    }

    /// The elements in either set.
    pub fn union(&self, other: &IntDegreeSet) -> (r: IntDegreeSet)
        ensures
            r@ == self@.union(other@),
    {
        proof {
            use_type_invariant(self);
            use_type_invariant(other);
            lemma_below_or(self.bits, other.bits, 10);
        }
        let r = IntDegreeSet { bits: self.bits | other.bits };
        assert(r@ =~= self@.union(other@)) by {
            assert forall|x: IntDegree| r@.contains(x) == self@.union(other@).contains(x) by {
                lemma_bit_or(self.bits, other.bits, degree_index(x));
            }
        }
        r
    }

    /// The elements in both sets.
    pub fn intersection(&self, other: &IntDegreeSet) -> (r: IntDegreeSet)
        ensures
            r@ == self@.intersect(other@),
    {
        proof {
            use_type_invariant(self);
            lemma_below_and(self.bits, other.bits, 10);
        }
        let r = IntDegreeSet { bits: self.bits & other.bits };
        assert(r@ =~= self@.intersect(other@)) by {
            assert forall|x: IntDegree| r@.contains(x) == self@.intersect(other@).contains(x) by {
                lemma_bit_and(self.bits, other.bits, degree_index(x));
            }
        }
        r
    }

    /// The elements of `self` that are not in `other`.
    pub fn difference(&self, other: &IntDegreeSet) -> (r: IntDegreeSet)
        ensures
            r@ == self@.difference(other@),
    {
        proof {
            use_type_invariant(self);
            lemma_below_and(self.bits, other.bits, 10);
        }
        let r = IntDegreeSet { bits: self.bits & !other.bits };
        assert(r@ =~= self@.difference(other@)) by {
            assert forall|x: IntDegree| r@.contains(x) == self@.difference(other@).contains(x) by {
                lemma_bit_and_not(self.bits, other.bits, degree_index(x));
            }
        }
        r
    }

    /// Whether the set has no element.
    pub fn is_empty(&self) -> (r: bool)
        ensures
            r == (self@ =~= Set::<IntDegree>::empty()),
    {
        proof {
            use_type_invariant(self);
        }
        let r = self.bits == 0;
        proof {
            broadcast use lemma_interval_index, lemma_interval_at, lemma_degree_index, lemma_degree_at;
            if !r {
                if self@ =~= Set::<IntDegree>::empty() {
                    assert forall|j: u32| j < 10 implies has_bit(self.bits, j) == has_bit(0u32, j) by {
                        assert(!self@.contains(degree_at(j)));
                    }
                    assert(0u32 < (1u32 << 10)) by (bit_vector);
                    lemma_bits_ext(self.bits, 0u32, 10);
                }
            } else {
                assert(self@ =~= Set::<IntDegree>::empty());
            }
        }
        r
    }

    /// Whether every element of `self` is in `other`.
    pub fn is_subset_of(&self, other: &IntDegreeSet) -> (r: bool)
        ensures
            r == self@.subset_of(other@),
    {
        let d = self.difference(other);
        let r = d.is_empty();
        proof {
            if !r {
                let x = choose|x: IntDegree| d@.contains(x);
                assert(!d@.contains(x) || !(self@.subset_of(other@)) || !d@.contains(x));
                if !(d@ =~= Set::<IntDegree>::empty()) {
                    assert(exists|x: IntDegree| d@.contains(x));
                }
            } else {
                assert forall|x: IntDegree| self@.contains(x) implies other@.contains(x) by {
                    assert(!d@.contains(x));
                }
            }
        }
        r
    }

    /// Whether every element of `other` is in `self`.
    pub fn is_superset_of(&self, other: &IntDegreeSet) -> (r: bool)
        ensures
            r == other@.subset_of(self@),
    {
        other.is_subset_of(self)
    }

    /// Whether the sets have no element in common.
    pub fn is_disjoint(&self, other: &IntDegreeSet) -> (r: bool)
        ensures
            r == self@.disjoint(other@),
    {
        let i = self.intersection(other);
        let r = i.is_empty();
        proof {
            if r {
                assert forall|x: IntDegree| self@.contains(x) implies !other@.contains(x) by {
                    assert(!i@.contains(x));
                }
            } else {
                assert(exists|x: IntDegree| i@.contains(x));
            }
        }
        r
    }

    /// The elements in declaration order.
    pub fn to_vec(&self) -> (r: Vec<IntDegree>)
        ensures
            r@ == degree_order(self@, 10 as nat),
    {
        let mut r: Vec<IntDegree> = Vec::new();
        let mut k: u32 = 0;
        while k < 10
            invariant
                k <= 10,
                r@ == degree_order(self@, k as nat),
            decreases 10 - k,
        {
            let e = IntDegree::at(k);
            if self.contains(e) {
                r.push(e);
            }
            k = k + 1;
        }
        r
    }

    /// Number of elements.
    pub fn len(&self) -> (r: usize)
        ensures
            r == degree_order(self@, 10 as nat).len(),
    {
        self.to_vec().len()
    }

    /// The set holding the elements of `items`.
    pub fn from_slice(items: &[IntDegree]) -> (r: IntDegreeSet)
        ensures
            r@ == items@.to_set(),
    {
        let mut r = IntDegreeSet::new();
        let mut i: usize = 0;
        while i < items.len()
            invariant
                i <= items@.len(),
                r@ == items@.subrange(0, i as int).to_set(),
            decreases items@.len() - i,
        {
            r.insert(items[i]);
            assert(items@.subrange(0, i + 1) =~= items@.subrange(0, i as int).push(items@[i as int]));
            proof {
                items@.subrange(0, i as int).lemma_push_to_set_commute(items@[i as int]);
            }
            i = i + 1;
        }
        assert(items@.subrange(0, items@.len() as int) =~= items@);
        r
    }
}

/// `s` with `target` replaced by `dest` where `target` occurs.
pub open spec fn spec_replace(s: Set<Interval>, target: Interval, dest: Interval) -> Set<Interval> {
    if s.contains(target) {
        s.remove(target).insert(dest)
    } else {
        s
    }
}

impl IntervalSet {
    /// Removes `remove` from the set, then inserts `add`, unconditionally.
    pub fn remove_then_add(&mut self, remove: Interval, add: Interval)
        ensures
            final(self)@ == old(self)@.remove(remove).insert(add),
    {
        self.remove(remove);
        self.insert(add);
    }

    /// A new set where `target`, if present, is replaced by `dest`; `self` is unchanged.
    pub fn replace(&self, target: Interval, dest: Interval) -> (r: IntervalSet)
        ensures
            r@ == spec_replace(self@, target, dest),
    {
        let mut r = *self;
        if r.contains(target) {
            r.remove(target);
            r.insert(dest);
        }
        r
    }
}

/// Writing an interval in chord notation and reading it back gives the same interval,
/// for every interval but the major seventh, which is written `Ma7` and read as `maj7`.
pub proof fn lemma_notation_round_trip(i: Interval)
    ensures
        i != Interval::MajorSeventh ==> spec_from_notation(spec_notation(i)) == Some(i),
        spec_from_notation(spec_notation(Interval::MajorSeventh)) == None::<Interval>,
{
    reveal_strlit("1");
    reveal_strlit("b2");
    reveal_strlit("2");
    reveal_strlit("b3");
    reveal_strlit("3");
    reveal_strlit("4");
    reveal_strlit("#4");
    reveal_strlit("b5");
    reveal_strlit("5");
    reveal_strlit("#5");
    reveal_strlit("b6");
    reveal_strlit("6");
    reveal_strlit("bb7");
    reveal_strlit("7");
    reveal_strlit("Ma7");
    reveal_strlit("8");
    reveal_strlit("b9");
    reveal_strlit("9");
    reveal_strlit("#9");
    reveal_strlit("11");
    reveal_strlit("#11");
    reveal_strlit("b13");
    reveal_strlit("13");
    reveal_strlit("maj7");
    assert("1"@.len() == 1);
    assert("b2"@.len() == 2);
    assert("2"@.len() == 1);
    assert("b3"@.len() == 2);
    assert("3"@.len() == 1);
    assert("4"@.len() == 1);
    assert("#4"@.len() == 2);
    assert("b5"@.len() == 2);
    assert("5"@.len() == 1);
    assert("#5"@.len() == 2);
    assert("b6"@.len() == 2);
    assert("6"@.len() == 1);
    assert("bb7"@.len() == 3);
    assert("7"@.len() == 1);
    assert("Ma7"@.len() == 3);
    assert("8"@.len() == 1);
    assert("b9"@.len() == 2);
    assert("9"@.len() == 1);
    assert("#9"@.len() == 2);
    assert("11"@.len() == 2);
    assert("#11"@.len() == 3);
    assert("b13"@.len() == 3);
    assert("13"@.len() == 2);
    assert("maj7"@.len() == 4);
    assert("1"@[0] != "2"@[0]);
    assert("1"@[0] != "3"@[0]);
    assert("1"@[0] != "4"@[0]);
    assert("1"@[0] != "5"@[0]);
    assert("1"@[0] != "6"@[0]);
    assert("1"@[0] != "7"@[0]);
    assert("1"@[0] != "8"@[0]);
    assert("1"@[0] != "9"@[0]);
    assert("b2"@[1] != "b3"@[1]);
    assert("b2"@[0] != "#4"@[0]);
    assert("b2"@[1] != "b5"@[1]);
    assert("b2"@[0] != "#5"@[0]);
    assert("b2"@[1] != "b6"@[1]);
    assert("b2"@[1] != "b9"@[1]);
    assert("b2"@[0] != "#9"@[0]);
    assert("b2"@[0] != "11"@[0]);
    assert("b2"@[0] != "13"@[0]);
    assert("2"@[0] != "3"@[0]);
    assert("2"@[0] != "4"@[0]);
    assert("2"@[0] != "5"@[0]);
    assert("2"@[0] != "6"@[0]);
    assert("2"@[0] != "7"@[0]);
    assert("2"@[0] != "8"@[0]);
    assert("2"@[0] != "9"@[0]);
    assert("b3"@[0] != "#4"@[0]);
    assert("b3"@[1] != "b5"@[1]);
    assert("b3"@[0] != "#5"@[0]);
    assert("b3"@[1] != "b6"@[1]);
    assert("b3"@[1] != "b9"@[1]);
    assert("b3"@[0] != "#9"@[0]);
    assert("b3"@[0] != "11"@[0]);
    assert("b3"@[0] != "13"@[0]);
    assert("3"@[0] != "4"@[0]);
    assert("3"@[0] != "5"@[0]);
    assert("3"@[0] != "6"@[0]);
    assert("3"@[0] != "7"@[0]);
    assert("3"@[0] != "8"@[0]);
    assert("3"@[0] != "9"@[0]);
    assert("4"@[0] != "5"@[0]);
    assert("4"@[0] != "6"@[0]);
    assert("4"@[0] != "7"@[0]);
    assert("4"@[0] != "8"@[0]);
    assert("4"@[0] != "9"@[0]);
    assert("#4"@[0] != "b5"@[0]);
    assert("#4"@[1] != "#5"@[1]);
    assert("#4"@[0] != "b6"@[0]);
    assert("#4"@[0] != "b9"@[0]);
    assert("#4"@[1] != "#9"@[1]);
    assert("#4"@[0] != "11"@[0]);
    assert("#4"@[0] != "13"@[0]);
    assert("b5"@[0] != "#5"@[0]);
    assert("b5"@[1] != "b6"@[1]);
    assert("b5"@[1] != "b9"@[1]);
    assert("b5"@[0] != "#9"@[0]);
    assert("b5"@[0] != "11"@[0]);
    assert("b5"@[0] != "13"@[0]);
    assert("5"@[0] != "6"@[0]);
    assert("5"@[0] != "7"@[0]);
    assert("5"@[0] != "8"@[0]);
    assert("5"@[0] != "9"@[0]);
    assert("#5"@[0] != "b6"@[0]);
    assert("#5"@[0] != "b9"@[0]);
    assert("#5"@[1] != "#9"@[1]);
    assert("#5"@[0] != "11"@[0]);
    assert("#5"@[0] != "13"@[0]);
    assert("b6"@[1] != "b9"@[1]);
    assert("b6"@[0] != "#9"@[0]);
    assert("b6"@[0] != "11"@[0]);
    assert("b6"@[0] != "13"@[0]);
    assert("6"@[0] != "7"@[0]);
    assert("6"@[0] != "8"@[0]);
    assert("6"@[0] != "9"@[0]);
    assert("bb7"@[0] != "Ma7"@[0]);
    assert("bb7"@[0] != "#11"@[0]);
    assert("bb7"@[1] != "b13"@[1]);
    assert("7"@[0] != "8"@[0]);
    assert("7"@[0] != "9"@[0]);
    assert("Ma7"@[0] != "#11"@[0]);
    assert("Ma7"@[0] != "b13"@[0]);
    assert("8"@[0] != "9"@[0]);
    assert("b9"@[0] != "#9"@[0]);
    assert("b9"@[0] != "11"@[0]);
    assert("b9"@[0] != "13"@[0]);
    assert("#9"@[0] != "11"@[0]);
    assert("#9"@[0] != "13"@[0]);
    assert("11"@[1] != "13"@[1]);
    assert("#11"@[0] != "b13"@[0]);
}

impl Default for Interval {
    fn default() -> (r: Interval)
        ensures
            r == Interval::Unison,
    {
        Interval::Unison
    }
}

} // verus!
