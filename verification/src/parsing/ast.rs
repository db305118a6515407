//! The tree a chord symbol is parsed into, and the base forms of a chord.
use crate::chord::interval::{Interval, IntervalSet};
use crate::chord::note::{Note, NoteLiteral};
use crate::parsing::expression::Exp;
use vstd::prelude::*;

verus! {

/// A parsed chord symbol: its root and its expressions, in the order they were read.
#[derive(Debug, Clone, PartialEq, Eq)]
pub struct Ast {
    pub root: Note,
    pub expressions: Vec<Exp>,
}

impl Default for Ast {
    fn default() -> (r: Ast)
        ensures
            r.root == (Note { literal: NoteLiteral::C, modifier: None }),
            r.expressions@ == Seq::<Exp>::empty(),
    {
        Ast { root: Note::new(NoteLiteral::C, None), expressions: Vec::new() }
    }
}

/// The triad or seventh a chord is built on, before extensions and alterations.
#[derive(Debug, Clone, Copy, PartialEq, Eq, Structural)]
pub enum BaseForm {
    Major,
    Minor,
    Dim,
    HalfDim,
    Dim7,
    Power,
}

/// The intervals of a diminished triad in place of the major third and perfect fifth.
pub open spec fn spec_apply_dim(s: Set<Interval>) -> Set<Interval> {
    s.remove(Interval::MajorThird).insert(Interval::MinorThird).remove(Interval::PerfectFifth).insert(
        Interval::DiminishedFifth,
    )
}

/// What a base form does to a set of intervals.
pub open spec fn spec_apply_form(f: BaseForm, s: Set<Interval>) -> Set<Interval> {
    match f {
        BaseForm::Major => s,
        BaseForm::Power => s.remove(Interval::MajorThird),
        BaseForm::Minor => s.remove(Interval::MajorThird).insert(Interval::MinorThird),
        BaseForm::Dim => spec_apply_dim(s),
        BaseForm::HalfDim => spec_apply_dim(s).insert(Interval::MinorSeventh),
        BaseForm::Dim7 => spec_apply_dim(s).insert(Interval::DiminishedSeventh),
    }
}

/// The rank of a base form: a higher one wins over a lower one.
pub open spec fn form_rank(f: BaseForm) -> u8 {
    match f {
        BaseForm::Power => 5,
        BaseForm::Dim7 => 4,
        BaseForm::Dim => 3,
        BaseForm::Minor => 2,
        BaseForm::HalfDim => 1,
        BaseForm::Major => 0,
    }
}

fn apply_dim(intervals: &mut IntervalSet)
    ensures
        final(intervals)@ == spec_apply_dim(old(intervals)@),
{
    intervals.remove_then_add(Interval::MajorThird, Interval::MinorThird);
    intervals.remove_then_add(Interval::PerfectFifth, Interval::DiminishedFifth);
}

fn rank(form: BaseForm) -> (r: u8)
    ensures
        r == form_rank(form),
{
    match form {
        BaseForm::Power => 5,
        BaseForm::Dim7 => 4,
        BaseForm::Dim => 3,
        BaseForm::Minor => 2,
        BaseForm::HalfDim => 1,
        BaseForm::Major => 0,
    }
}

impl BaseForm {
    /// Adds or removes the thirds, fifths and sevenths of the form.
    pub fn apply(&self, intervals: &mut IntervalSet)
        ensures
            final(intervals)@ == spec_apply_form(*self, old(intervals)@),
    {
        match self {
            BaseForm::Major => {},
            BaseForm::Power => intervals.remove(Interval::MajorThird),
            BaseForm::Minor => intervals.remove_then_add(Interval::MajorThird, Interval::MinorThird),
            BaseForm::Dim => apply_dim(intervals),
            BaseForm::HalfDim => {
                apply_dim(intervals);
                intervals.insert(Interval::MinorSeventh);
            },
            BaseForm::Dim7 => {
                apply_dim(intervals);
                intervals.insert(Interval::DiminishedSeventh);
            },
        }
    }

    /// The form that results from meeting `other` while in `self`: the one of higher rank,
    /// `self` on a tie.
    pub fn transition(&self, other: BaseForm) -> (r: BaseForm)
        ensures
            r == (if form_rank(*self) >= form_rank(other) { *self } else { other }),
    {
        if rank(*self) >= rank(other) {
            *self
        } else {
            other
        }
    }
}

} // verus!
