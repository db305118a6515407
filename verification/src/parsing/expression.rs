//! The expressions a chord symbol is read into.
use crate::chord::interval::Interval;
use crate::chord::note::Note;
use vstd::prelude::*;

verus! {

/// One meaningful part of a chord symbol, such as a minor sign, an extension or an added note.
#[derive(Debug, Clone, Copy, PartialEq, Eq, Structural)]
pub enum Exp {
    Power,
    Bass,
    Maj,
    Maj7,
    Minor,
    HalfDim,
    Dim,
    Dim7,
    Alt,
    Aug,
    Sus(SusExp),
    Extension(ExtensionExp),
    Add(AddExp),
    Omit(OmitExp),
    SlashBass(SlashBassExp),
}

/// An extension or alteration, and where it was written.
#[derive(Debug, Clone, Copy, PartialEq, Eq, Structural)]
pub struct ExtensionExp {
    pub interval: Interval,
    pub pos: usize,
}

/// An added interval, and where its target was written.
#[derive(Debug, Clone, Copy, PartialEq, Eq, Structural)]
pub struct AddExp {
    pub interval: Interval,
    pub target_pos: usize,
}

/// A suspension, by the interval that replaces the third.
#[derive(Debug, Clone, Copy, PartialEq, Eq, Structural)]
pub struct SusExp {
    pub interval: Interval,
}

/// An omitted interval, and where its target was written.
#[derive(Debug, Clone, Copy, PartialEq, Eq, Structural)]
pub struct OmitExp {
    pub interval: Interval,
    pub target_pos: usize,
}

/// A bass note written after a slash.
#[derive(Debug, Clone, Copy, PartialEq, Eq, Structural)]
pub struct SlashBassExp {
    pub note: Note,
}

/// The intervals that can be added to a chord.
pub open spec fn addable(i: Interval) -> bool {
    i == Interval::MajorSecond || i == Interval::MajorThird || i == Interval::PerfectFourth
        || i == Interval::MinorSixth || i == Interval::MajorSixth || i == Interval::MajorSeventh
        || i == Interval::FlatNinth || i == Interval::Ninth || i == Interval::SharpNinth
        || i == Interval::Eleventh || i == Interval::SharpEleventh || i == Interval::FlatThirteenth
        || i == Interval::Thirteenth
}

/// The intervals that can be omitted from a chord.
pub open spec fn omittable(i: Interval) -> bool {
    i == Interval::MajorThird || i == Interval::PerfectFifth
}

/// Whether an expression has a legal target, and the position of that target.
pub open spec fn spec_validate(e: Exp) -> (bool, usize) {
    match e {
        Exp::Omit(o) => (omittable(o.interval), o.target_pos),
        Exp::Add(a) => (addable(a.interval), a.target_pos),
        _ => (true, 0usize),
    }
}

/// The rank of an expression's kind.
pub open spec fn spec_priority(e: Exp) -> u32 {
    match e {
        Exp::Power => 0,
        Exp::Alt => 1,
        Exp::Bass => 2,
        Exp::Minor => 3,
        Exp::Dim7 => 4,
        Exp::Dim => 5,
        Exp::HalfDim => 6,
        Exp::Sus(_) => 7,
        Exp::Maj => 8,
        Exp::Maj7 => 9,
        Exp::Extension(_) => 10,
        Exp::Add(_) => 11,
        Exp::Aug => 12,
        Exp::Omit(_) => 13,
        Exp::SlashBass(_) => 14,
    }
}

/// The name of the kind of expression with a given rank.
pub open spec fn spec_priority_name(p: u32) -> Seq<char> {
    if p == 0 { "5"@ }
    else if p == 1 { "Alt"@ }
    else if p == 2 { "Bass"@ }
    else if p == 3 { "Minor"@ }
    else if p == 4 { "Dim7"@ }
    else if p == 5 { "Dim"@ }
    else if p == 6 { "halfDim"@ }
    else if p == 7 { "Sus"@ }
    else if p == 8 || p == 9 { "Maj"@ }
    else if p == 10 { "Extension"@ }
    else if p == 11 { "Add"@ }
    else if p == 12 { "Aug"@ }
    else if p == 13 { "Omit"@ }
    else if p == 14 { "SlashBass"@ }
    else { ""@ }
}

impl Exp {
    /// Whether the expression has a legal target, and the position of that target.
    pub fn validate(&self) -> (r: (bool, usize))
        ensures
            r == spec_validate(*self),
    {
        match self {
            Exp::Omit(exp) => exp.isvalid(),
            Exp::Add(exp) => exp.isvalid(),
            _ => (true, 0),
        }
    }

    /// The rank of the expression's kind.
    pub fn priority(&self) -> (r: u32)
        ensures
            r == spec_priority(*self),
    {
        match self {
            Exp::Power => 0,
            Exp::Alt => 1,
            Exp::Bass => 2,
            Exp::Minor => 3,
            Exp::Dim7 => 4,
            Exp::Dim => 5,
            Exp::HalfDim => 6,
            Exp::Sus(_) => 7,
            Exp::Maj => 8,
            Exp::Maj7 => 9,
            Exp::Extension(_) => 10,
            Exp::Add(_) => 11,
            Exp::Aug => 12,
            Exp::Omit(_) => 13,
            Exp::SlashBass(_) => 14,
        }
    }

    /// The name of the kind of expression with rank `p`.
    pub fn from_priority(p: u32) -> (r: &'static str)
        ensures
            r@ == spec_priority_name(p),
    {
        if p == 0 { "5" }
        else if p == 1 { "Alt" }
        else if p == 2 { "Bass" }
        else if p == 3 { "Minor" }
        else if p == 4 { "Dim7" }
        else if p == 5 { "Dim" }
        else if p == 6 { "halfDim" }
        else if p == 7 { "Sus" }
        else if p == 8 || p == 9 { "Maj" }
        else if p == 10 { "Extension" }
        else if p == 11 { "Add" }
        else if p == 12 { "Aug" }
        else if p == 13 { "Omit" }
        else if p == 14 { "SlashBass" }
        else { "" }
    }
}

impl ExtensionExp {
    pub fn new(interval: Interval, pos: usize) -> (r: Self)
        ensures
            r == (ExtensionExp { interval, pos }),
    {
        ExtensionExp { interval, pos }
    }
}

impl AddExp {
    pub fn new(interval: Interval, target_pos: usize) -> (r: Self)
        ensures
            r == (AddExp { interval, target_pos }),
    {
        AddExp { interval, target_pos }
    }

    /// Whether the interval can be added, and where its target was written.
    pub fn isvalid(&self) -> (r: (bool, usize))
        ensures
            r == (addable(self.interval), self.target_pos),
    {
        let ok = match self.interval {
            Interval::MajorSecond | Interval::MajorThird | Interval::PerfectFourth
            | Interval::MinorSixth | Interval::MajorSixth | Interval::MajorSeventh
            | Interval::FlatNinth | Interval::Ninth | Interval::SharpNinth | Interval::Eleventh
            | Interval::SharpEleventh | Interval::FlatThirteenth | Interval::Thirteenth => true,
            _ => false,
        };
        (ok, self.target_pos)
    }
}

impl SusExp {
    pub fn new(interval: Interval) -> (r: Self)
        ensures
            r == (SusExp { interval }),
    {
        SusExp { interval }
    }
}

impl OmitExp {
    pub fn new(interval: Interval, target_pos: usize) -> (r: Self)
        ensures
            r == (OmitExp { interval, target_pos }),
    {
        OmitExp { interval, target_pos }
    }

    /// Whether the interval can be omitted, and where its target was written.
    pub fn isvalid(&self) -> (r: (bool, usize))
        ensures
            r == (omittable(self.interval), self.target_pos),
    {
        let ok = match self.interval {
            Interval::MajorThird | Interval::PerfectFifth => true,
            _ => false,
        };
        (ok, self.target_pos)
    }
}

impl SlashBassExp {
    pub fn new(note: Note) -> (r: Self)
        ensures
            r == (SlashBassExp { note }),
    {
        SlashBassExp { note }
    }
}

} // verus!
