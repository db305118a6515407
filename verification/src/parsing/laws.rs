//! What holds of every chord the parser accepts, and of every rejection.
use crate::chord::interval::{
    interval_at, interval_index, interval_order, lemma_interval_at, lemma_interval_index, spec_degree, spec_numeric,
    spec_st, Interval,
};
use crate::parsing::evaluator::{
    note_at, says_major, spec_add_implied, spec_apply_adds, spec_apply_alts, spec_apply_omits, spec_described,
    spec_eval_exp, spec_eval_exps, spec_final_set, spec_seed, DescModel,
};
use crate::chord::note::{Note, NoteModifier};
use crate::parsing::expression::Exp;
use crate::parsing::spec_parse;
use crate::parsing::expression::spec_validate;
use crate::parsing::validator::{
    count_prio, first_bad_target, first_duplicate, has_class, incompatible, inconsistencies, semitone_runs,
    spec_validate_expressions, spec_validate_extensions,
};
use vstd::prelude::*;

verus! {

/// A rejected chord symbol always comes with at least one error.
pub proof fn lemma_rejection_has_errors(input: Seq<char>)
    requires
        spec_parse(input) is Err,
    ensures
        spec_parse(input)->Err_0.len() > 0,
{
    let st = crate::parsing::machine::spec_read(crate::parsing::prepare::spec_preprocess(
        crate::parsing::lexer::spec_lex(input),
    ));
    if st.errs.len() == 0 {
        let exps = st.exps;
        let ints = crate::parsing::evaluator::spec_intervals(exps);
        let (v1, e1) = spec_validate_expressions(exps);
        let (v2, e2) = spec_validate_extensions(exps, ints);
        if !v1 {
            assert(e1.len() > 0);
        }
        if !v2 {
            assert(e2.len() > 0);
        }
    }
}

/// The expressions the parser reads from a chord symbol.
pub open spec fn spec_parsed_exps(input: Seq<char>) -> Seq<Exp> {
    crate::parsing::machine::spec_read(crate::parsing::prepare::spec_preprocess(crate::parsing::lexer::spec_lex(input))).exps
}

/// What an accepted chord symbol says: no kind of expression but extensions, additions and
/// omissions occurs twice (so a symbol with two suspensions, two slash basses, two minor or
/// two major signs is rejected), every addition adds an interval that can be added (so an
/// altered third is never added), and every omission omits the third or the fifth.
pub proof fn lemma_accepted_expressions(input: Seq<char>)
    requires
        spec_parse(input) is Ok,
    ensures
        forall|p: u32| p < 15 ==> count_prio(spec_parsed_exps(input), p) <= 1,
        forall|i: int| 0 <= i < spec_parsed_exps(input).len() ==> (#[trigger] spec_validate(spec_parsed_exps(input)[i])).0,
{
    let exps = spec_parsed_exps(input);
    let (v1, e1) = spec_validate_expressions(exps);
    assert(v1);
    lemma_no_bad_target(exps);
    lemma_no_duplicate(exps, 0);
}

proof fn lemma_no_bad_target(exps: Seq<Exp>)
    requires
        first_bad_target(exps) is None,
    ensures
        forall|i: int| 0 <= i < exps.len() ==> (#[trigger] spec_validate(exps[i])).0,
    decreases exps.len(),
{
    if exps.len() > 0 {
        lemma_no_bad_target(exps.drop_last());
        assert forall|i: int| 0 <= i < exps.len() implies (#[trigger] spec_validate(exps[i])).0 by {
            if i < exps.len() - 1 {
                assert(exps[i] == exps.drop_last()[i]);
            }
        }
    }
}

proof fn lemma_no_duplicate(exps: Seq<Exp>, p: u32)
    requires
        p <= 15,
        first_duplicate(exps, p) is None,
    ensures
        forall|q: u32| p <= q < 15 ==> count_prio(exps, q) <= 1,
    decreases 15 - p,
{
    if p < 15 {
        lemma_no_duplicate(exps, (p + 1) as u32);
    }
}

/// A chord symbol that starts with a note letter and an accidental sign has that note, raised
/// a semitone by `#` or `♯` and lowered a semitone by `♭`, as its root; when the symbol is
/// accepted, that is the chord's root.
pub proof fn lemma_signed_root(input: Seq<char>)
    requires
        input.len() >= 2,
        crate::parsing::token::is_note_letter(input[0]),
        input[1] == '#' || input[1] == '♯' || input[1] == '♭',
    ensures
        ({
            let root = Note {
                literal: crate::parsing::token::letter_note(input[0]),
                modifier: Some(NoteModifier(if input[1] == '♭' { -1i8 } else { 1i8 })),
            };
            &&& spec_parsed_root(input) == root
            &&& (spec_parse(input) is Ok ==> spec_parse(input)->Ok_0.root == root)
        }),
{
    let lexed = crate::parsing::lexer::spec_lex(input);
    crate::parsing::lexer::lemma_lex_signed_root(input);
    crate::parsing::prepare::lemma_preprocess_front(lexed);
    let toks = crate::parsing::prepare::spec_preprocess(lexed);
    let (s0, i0) = crate::parsing::machine::spec_read_root(toks);
    crate::parsing::machine::lemma_run_keeps_root(s0, Seq::empty(), toks, i0);
}

/// The root the parser reads from a chord symbol.
pub open spec fn spec_parsed_root(input: Seq<char>) -> Note {
    crate::parsing::machine::spec_read(crate::parsing::prepare::spec_preprocess(crate::parsing::lexer::spec_lex(input))).root
}

/// A parsed chord keeps its input as origin, and its notes, semitones and intervals
/// correspond one to one: each note is spelled from the root on its interval, each semitone
/// count and degree is its interval's.
pub proof fn lemma_parsed_chord_is_consistent(input: Seq<char>)
    requires
        spec_parse(input) is Ok,
    ensures
        ({
            let c = spec_parse(input)->Ok_0;
            &&& c.origin == input
            &&& c.notes.len() == c.intervals.len()
            &&& c.semitones.len() == c.intervals.len()
            &&& c.interval_degrees.len() == c.intervals.len()
            &&& forall|i: int| 0 <= i < c.intervals.len() ==> c.semitones[i] == spec_st(#[trigger] c.intervals[i])
                && c.notes[i] == note_at(c.root, c.intervals[i])
                && c.interval_degrees[i] == spec_numeric(spec_degree(c.intervals[i]))
        }),
{
}

/// A parsed chord holds no pair of incompatible intervals: not both thirds, not a perfect
/// fifth with an altered one, not both sixths, not a natural ninth, eleventh or thirteenth
/// with its altered form.
pub proof fn lemma_parsed_chord_has_no_conflicts(input: Seq<char>)
    requires
        spec_parse(input) is Ok,
    ensures
        ({
            let s = spec_parse(input)->Ok_0.normalized_intervals.to_set();
            &&& !(s.contains(Interval::MajorThird) && s.contains(Interval::MinorThird))
            &&& !(s.contains(Interval::PerfectFifth) && s.contains(Interval::DiminishedFifth))
            &&& !(s.contains(Interval::PerfectFifth) && s.contains(Interval::AugmentedFifth))
            &&& !(s.contains(Interval::MajorSixth) && s.contains(Interval::MinorSixth))
            &&& !(s.contains(Interval::Ninth) && s.contains(Interval::FlatNinth))
            &&& !(s.contains(Interval::Ninth) && s.contains(Interval::SharpNinth))
            &&& !(s.contains(Interval::Eleventh) && s.contains(Interval::SharpEleventh))
            &&& !(s.contains(Interval::Thirteenth) && s.contains(Interval::FlatThirteenth))
        }),
{
    let c = spec_parse(input)->Ok_0;
    let s = c.normalized_intervals.to_set();
    assert(inconsistencies(s, 0).len() == 0);
    lemma_no_inconsistency(s, 0);
    assert(incompatible(0).1 == Interval::MajorThird);
    assert(incompatible(1).1 == Interval::PerfectFifth);
    assert(incompatible(2).1 == Interval::PerfectFifth);
    assert(incompatible(3).1 == Interval::MajorSixth);
    assert(incompatible(4).1 == Interval::Ninth);
    assert(incompatible(5).1 == Interval::Ninth);
    assert(incompatible(6).1 == Interval::Eleventh);
    assert(incompatible(7).1 == Interval::Thirteenth);
}

/// A parsed chord holds no three intervals a semitone apart from each other (within an
/// octave, the seventh and the root included).
pub proof fn lemma_parsed_chord_has_no_semitone_runs(input: Seq<char>, p: int)
    requires
        spec_parse(input) is Ok,
        0 <= p < 12,
    ensures
        ({
            let ints = spec_parse(input)->Ok_0.normalized_intervals;
            !(has_class(ints, p) && has_class(ints, (p + 1) % 12) && has_class(ints, (p + 2) % 12))
        }),
{
    let ints = spec_parse(input)->Ok_0.normalized_intervals;
    assert(semitone_runs(ints, 0).len() == 0);
    lemma_no_run(ints, 0, p);
}

proof fn lemma_no_inconsistency(s: Set<Interval>, k: int)
    requires
        0 <= k <= 8,
        inconsistencies(s, k).len() == 0,
    ensures
        forall|j: int| k <= j < 8 ==> !(s.contains(#[trigger] incompatible(j).1) && s.contains(incompatible(j).2)),
    decreases 8 - k,
{
    if k < 8 {
        lemma_no_inconsistency(s, k + 1);
    }
}

proof fn lemma_no_run(s: Seq<Interval>, i: int, p: int)
    requires
        0 <= i <= p < 12,
        semitone_runs(s, i).len() == 0,
    ensures
        !(has_class(s, p) && has_class(s, (p + 1) % 12) && has_class(s, (p + 2) % 12)),
    decreases p - i,
{
    if i < p {
        lemma_no_run(s, i + 1, p);
    }
}

/// The root is part of every parsed chord, and no parsed chord has both a minor and a major
/// seventh.
pub proof fn lemma_parsed_chord_has_root(input: Seq<char>)
    requires
        spec_parse(input) is Ok,
    ensures
        spec_parse(input)->Ok_0.normalized_intervals.contains(Interval::Unison),
        !(spec_parse(input)->Ok_0.normalized_intervals.contains(Interval::MinorSeventh)
            && spec_parse(input)->Ok_0.normalized_intervals.contains(Interval::MajorSeventh)),
{
    let st = crate::parsing::machine::spec_read(crate::parsing::prepare::spec_preprocess(
        crate::parsing::lexer::spec_lex(input),
    ));
    let exps = st.exps;
    let ints = spec_parse(input)->Ok_0.normalized_intervals;
    lemma_unison_in_chord(exps);
    lemma_interval_order_contains(spec_final_set(exps), 23);
    assert(ints.contains(Interval::Unison));
    lemma_parsed_chord_has_no_semitone_runs(input, 10);
    if ints.contains(Interval::MinorSeventh) && ints.contains(Interval::MajorSeventh) {
        let a = choose|i: int| 0 <= i < ints.len() && ints[i] == Interval::MinorSeventh;
        let b = choose|i: int| 0 <= i < ints.len() && ints[i] == Interval::MajorSeventh;
        let c = choose|i: int| 0 <= i < ints.len() && ints[i] == Interval::Unison;
        assert(spec_st(ints[a]) % 12 == 10);
        assert(spec_st(ints[b]) % 12 == 11);
        assert(spec_st(ints[c]) % 12 == 0);
        assert(has_class(ints, 10));
        assert(has_class(ints, 11));
        assert(has_class(ints, 0));
    }
}

/// The members of `s` listed in declaration order are exactly its members among the first `k`.
pub proof fn lemma_interval_order_contains(s: Set<Interval>, k: nat)
    requires
        k <= 23,
    ensures
        forall|e: Interval| #[trigger] interval_order(s, k).contains(e) <==> s.contains(e) && interval_index(e) < k,
    decreases k,
{
    broadcast use lemma_interval_index, lemma_interval_at;
    if k > 0 {
        lemma_interval_order_contains(s, (k - 1) as nat);
        let prev = interval_order(s, (k - 1) as nat);
        let e = interval_at((k - 1) as u32);
        assert forall|x: Interval| #[trigger] interval_order(s, k).contains(x) <==> s.contains(x) && interval_index(x) < k by {
            if s.contains(e) {
                assert(interval_order(s, k) == prev.push(e));
                if prev.push(e).contains(x) && x != e {
                    let j = choose|j: int| 0 <= j < prev.push(e).len() && prev.push(e)[j] == x;
                    assert(prev[j] == x);
                }
                if prev.contains(x) {
                    let j = choose|j: int| 0 <= j < prev.len() && prev[j] == x;
                    assert(prev.push(e)[j] == x);
                }
                if x == e {
                    assert(prev.push(e)[prev.len() as int] == e);
                }
            }
        }
    }
}

proof fn lemma_unison_in_chord(exps: Seq<Exp>)
    ensures
        spec_final_set(exps).contains(Interval::Unison),
{
    let d = spec_described(exps);
    lemma_unison_exps(spec_seed(), exps);
    let s1 = crate::parsing::ast::spec_apply_form(d.base_form, d.set);
    let s2 = crate::parsing::evaluator::spec_after_sus(exps);
    assert(s2.contains(Interval::Unison));
    lemma_unison_alts(s2, d.alts);
    let s3 = spec_apply_alts(s2, d.alts);
    let s4 = crate::parsing::evaluator::spec_after_implied(exps);
    match d.max_extension {
        None => {},
        Some(ext) => {
            let seventh = if says_major(exps) { Interval::MajorSeventh } else { Interval::MinorSeventh };
            let s1b = if d.base_form == crate::parsing::ast::BaseForm::Major && ext == Interval::Eleventh {
                s3.remove(Interval::MajorThird).insert(Interval::PerfectFourth)
            } else {
                s3.insert(ext)
            };
            lemma_unison_implied(s1b, crate::parsing::evaluator::spec_implied_list(ext, d.base_form, s1b, seventh));
        },
    }
    assert(s4.contains(Interval::Unison));
    lemma_unison_omits(s4, d.omits);
    let s5 = spec_apply_omits(s4, d.omits);
    lemma_unison_adds(s5, d.adds, d.base_form == crate::parsing::ast::BaseForm::Major);
}

proof fn lemma_unison_exps(d: DescModel, exps: Seq<Exp>)
    requires
        d.set.contains(Interval::Unison),
    ensures
        spec_eval_exps(d, exps).set.contains(Interval::Unison),
    decreases exps.len(),
{
    if exps.len() > 0 {
        lemma_unison_exps(d, exps.drop_last());
        let prev = spec_eval_exps(d, exps.drop_last());
        assert(spec_eval_exp(prev, exps.last()).set.contains(Interval::Unison));
    }
}

proof fn lemma_unison_alts(s: Set<Interval>, alts: Seq<Interval>)
    requires
        s.contains(Interval::Unison),
    ensures
        spec_apply_alts(s, alts).contains(Interval::Unison),
    decreases alts.len(),
{
    if alts.len() > 0 {
        lemma_unison_alts(s, alts.drop_last());
    }
}

proof fn lemma_unison_implied(s: Set<Interval>, xs: Seq<Interval>)
    requires
        s.contains(Interval::Unison),
    ensures
        spec_add_implied(s, xs).contains(Interval::Unison),
    decreases xs.len(),
{
    if xs.len() > 0 {
        lemma_unison_implied(s, xs.drop_last());
    }
}

proof fn lemma_unison_omits(s: Set<Interval>, omits: Seq<Interval>)
    requires
        s.contains(Interval::Unison),
    ensures
        spec_apply_omits(s, omits).contains(Interval::Unison),
    decreases omits.len(),
{
    if omits.len() > 0 {
        lemma_unison_omits(s, omits.drop_last());
    }
}

proof fn lemma_unison_adds(s: Set<Interval>, adds: Seq<Interval>, major: bool)
    requires
        s.contains(Interval::Unison),
    ensures
        spec_apply_adds(s, adds, major).contains(Interval::Unison),
    decreases adds.len(),
{
    if adds.len() > 0 {
        lemma_unison_adds(s, adds.drop_last(), major);
    }
}

} // verus!
