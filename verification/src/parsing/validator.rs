//! Rules that reject inconsistent chords.
use crate::chord::interval::{spec_notation, spec_st, Interval};
use crate::parsing::expression::{spec_priority, spec_priority_name, spec_validate, Exp};
use crate::parsing::parser_error::{ErrorView, ParserError};
use vstd::prelude::*;

verus! {

/// Whether an expression kind may occur only once (everything but extensions, adds and omits).
pub open spec fn counted(e: Exp) -> bool {
    !(e is Extension || e is Add || e is Omit)
}

/// How many expressions of `exps` of a kind that may occur only once have rank `p`.
pub open spec fn count_prio(exps: Seq<Exp>, p: u32) -> nat
    decreases exps.len(),
{
    if exps.len() == 0 {
        0
    } else {
        count_prio(exps.drop_last(), p) + if counted(exps.last()) && spec_priority(exps.last()) == p { 1nat } else { 0nat }
    }
}

/// The target position of the first expression with an illegal target, if any.
pub open spec fn first_bad_target(exps: Seq<Exp>) -> Option<usize>
    decreases exps.len(),
{
    if exps.len() == 0 {
        None
    } else {
        match first_bad_target(exps.drop_last()) {
            Some(p) => Some(p),
            None => if !spec_validate(exps.last()).0 { Some(spec_validate(exps.last()).1) } else { None },
        }
    }
}

/// The lowest rank from `p` on that occurs more than once, if any.
pub open spec fn first_duplicate(exps: Seq<Exp>, p: u32) -> Option<u32>
    decreases 15 - p,
{
    if p >= 15 {
        None
    } else if count_prio(exps, p) > 1 {
        Some(p)
    } else {
        first_duplicate(exps, (p + 1) as u32)
    }
}

/// Checks each expression's target, then that no kind but extensions, adds and omits occurs
/// twice; reports the first failure only.
pub open spec fn spec_validate_expressions(exps: Seq<Exp>) -> (bool, Seq<ErrorView>) {
    match first_bad_target(exps) {
        Some(p) => (false, seq![ErrorView::WrongExpressionTarget(p)]),
        None => match first_duplicate(exps, 0) {
            Some(k) => (false, seq![ErrorView::DuplicateModifier(spec_priority_name(k))]),
            None => (true, Seq::empty()),
        },
    }
}

/// Intervals that cannot be written as an extension.
pub open spec fn not_extension(i: Interval) -> bool {
    i == Interval::MinorSecond || i == Interval::MajorSecond || i == Interval::MinorThird
        || i == Interval::MajorThird || i == Interval::DiminishedSeventh || i == Interval::MajorSeventh
}

/// Reads the extensions in order: the semitones seen so far, or the first error.
pub open spec fn extension_scan(exps: Seq<Exp>) -> Result<Set<u8>, ErrorView>
    decreases exps.len(),
{
    if exps.len() == 0 {
        Ok(Set::empty())
    } else {
        match extension_scan(exps.drop_last()) {
            Err(e) => Err(e),
            Ok(seen) => match exps.last() {
                Exp::Extension(x) => if not_extension(x.interval) {
                    Err(ErrorView::InvalidExtension(x.pos))
                } else if seen.contains(spec_st(x.interval)) {
                    Err(ErrorView::DuplicateExtension(x.pos))
                } else {
                    Ok(seen.insert(spec_st(x.interval)))
                },
                _ => Ok(seen),
            },
        }
    }
}

/// The pairs of intervals that cannot be in one chord, each with the interval reported.
pub open spec fn incompatible(k: int) -> (Interval, Interval, Interval) {
    if k == 0 { (Interval::MajorThird, Interval::MajorThird, Interval::MinorThird) }
    else if k == 1 { (Interval::PerfectFifth, Interval::PerfectFifth, Interval::DiminishedFifth) }
    else if k == 2 { (Interval::PerfectFifth, Interval::PerfectFifth, Interval::AugmentedFifth) }
    else if k == 3 { (Interval::MajorSixth, Interval::MajorSixth, Interval::MinorSixth) }
    else if k == 4 { (Interval::Ninth, Interval::Ninth, Interval::FlatNinth) }
    else if k == 5 { (Interval::Ninth, Interval::Ninth, Interval::SharpNinth) }
    else if k == 6 { (Interval::Eleventh, Interval::Eleventh, Interval::SharpEleventh) }
    else { (Interval::Thirteenth, Interval::Thirteenth, Interval::FlatThirteenth) }
}

/// An inconsistency error for each incompatible pair from the `k`-th on found in `s`.
pub open spec fn inconsistencies(s: Set<Interval>, k: int) -> Seq<ErrorView>
    decreases 8 - k,
{
    if k >= 8 {
        Seq::empty()
    } else {
        let (r, a, b) = incompatible(k);
        (if s.contains(a) && s.contains(b) { seq![ErrorView::InconsistentExtension(spec_notation(r))] } else { Seq::empty() })
            + inconsistencies(s, k + 1)
    }
}

/// Checks the written extensions, then the intervals for incompatible pairs.
pub open spec fn spec_validate_extensions(exps: Seq<Exp>, ints: Seq<Interval>) -> (bool, Seq<ErrorView>) {
    match extension_scan(exps) {
        Err(e) => (false, seq![e]),
        Ok(_) => {
            let errs = inconsistencies(ints.to_set(), 0);
            (errs.len() == 0, errs)
        },
    }
}

/// Whether an interval of `s` lies `p` semitones above the root, within an octave.
pub open spec fn has_class(s: Seq<Interval>, p: int) -> bool {
    exists|i: int| 0 <= i < s.len() && spec_st(#[trigger] s[i]) % 12 == p
}

/// The last interval of `s` that lies `p` semitones above the root, within an octave.
pub open spec fn last_of_class(s: Seq<Interval>, p: int) -> Interval
    decreases s.len(),
{
    if s.len() == 0 {
        Interval::Unison
    } else if spec_st(s.last()) % 12 == p {
        s.last()
    } else {
        last_of_class(s.drop_last(), p)
    }
}

/// An error for each run of three semitones, starting from class `i`, in `s`.
pub open spec fn semitone_runs(s: Seq<Interval>, i: int) -> Seq<ErrorView>
    decreases 12 - i,
{
    if i >= 12 || i < 0 {
        Seq::empty()
    } else {
        let a = (i + 1) % 12;
        let b = (i + 2) % 12;
        (if has_class(s, i) && has_class(s, a) && has_class(s, b) {
            seq![ErrorView::ThreeConsecutiveSemitones(seq![
                spec_notation(last_of_class(s, i)),
                spec_notation(last_of_class(s, a)),
                spec_notation(last_of_class(s, b)),
            ])]
        } else {
            Seq::empty()
        }) + semitone_runs(s, i + 1)
    }
}

/// All three rules, with the errors of each in turn.
pub open spec fn spec_validate_all(exps: Seq<Exp>, ints: Seq<Interval>) -> (bool, Seq<ErrorView>) {
    let (v1, e1) = spec_validate_expressions(exps);
    let (v2, e2) = spec_validate_extensions(exps, ints);
    let e3 = semitone_runs(ints, 0);
    (v1 && v2 && e3.len() == 0, e1 + e2 + e3)
}

proof fn lemma_count_prio_push(exps: Seq<Exp>, e: Exp, p: u32)
    ensures
        count_prio(exps.push(e), p) == count_prio(exps, p) + if counted(e) && spec_priority(e) == p { 1nat } else { 0nat },
{
    assert(exps.push(e).drop_last() =~= exps);
}

/// Checks a chord's expressions and intervals for inconsistencies.
pub struct Validator;

impl Validator {
    /// Appends to `errors` what each rule finds, and says whether the chord is consistent and
    /// `errors` is empty.
    pub fn validate(&self, expressions: &Vec<Exp>, errors: &mut Vec<ParserError>, intervals: &[Interval]) -> (r:
        bool)
        ensures
            final(errors)@.map_values(|e: ParserError| e@) == old(errors)@.map_values(|e: ParserError| e@)
                + spec_validate_all(expressions@, intervals@).1,
            r == (spec_validate_all(expressions@, intervals@).0 && final(errors)@.len() == 0),
    {
        let ghost e0 = errors@.map_values(|e: ParserError| e@);
        let valid_exp = self.validate_expressions(expressions, errors);
        let ghost e1 = errors@.map_values(|e: ParserError| e@);
        let valid_ext = self.validate_extensions(expressions, errors, intervals);
        let ghost e2 = errors@.map_values(|e: ParserError| e@);
        let valid_sem = self.validate_semitones(errors, intervals);
        proof {
            let (v1, x1) = spec_validate_expressions(expressions@);
            let (v2, x2) = spec_validate_extensions(expressions@, intervals@);
            assert(errors@.map_values(|e: ParserError| e@) =~= e0 + (x1 + x2 + semitone_runs(intervals@, 0)));
        }
        valid_exp && valid_ext && valid_sem && errors.len() == 0
    }

    /// Checks each expression's target, then that no kind but extensions, adds and omits
    /// occurs twice.
    fn validate_expressions(&self, expressions: &Vec<Exp>, errors: &mut Vec<ParserError>) -> (r: bool)
        ensures
            r == spec_validate_expressions(expressions@).0,
            final(errors)@.map_values(|e: ParserError| e@) == old(errors)@.map_values(|e: ParserError| e@)
                + spec_validate_expressions(expressions@).1,
    {
        let mut counts: Vec<usize> = vec![0usize; 15];
        let mut k: usize = 0;
        while k < expressions.len()
            invariant
                k <= expressions@.len(),
                counts@.len() == 15,
                first_bad_target(expressions@.take(k as int)) is None,
                forall|p: u32| p < 15 ==> counts@[p as int] == #[trigger] count_prio(expressions@.take(k as int), p),
                errors@ == old(errors)@,
            decreases expressions@.len() - k,
        {
            let e = expressions[k];
            assert(expressions@.take(k + 1) =~= expressions@.take(k as int).push(e));
            assert(expressions@.take(k + 1).drop_last() =~= expressions@.take(k as int));
            let (is_valid, target_pos) = e.validate();
            if !is_valid {
                errors.push(ParserError::WrongExpressionTarget(target_pos));
                proof {
                    lemma_first_bad_extends(expressions@, k as int);
                    assert(errors@.map_values(|e: ParserError| e@) =~= old(errors)@.map_values(|e: ParserError| e@)
                        + spec_validate_expressions(expressions@).1);
                }
                return false;
            }
            let counted_kind = match e {
                Exp::Extension(_) | Exp::Add(_) | Exp::Omit(_) => false,
                _ => true,
            };
            let ghost before = counts@;
            if counted_kind {
                let p = e.priority();
                let c = counts[p as usize];
                proof {
                    lemma_count_prio_push(expressions@.take(k as int), e, p);
                    lemma_count_bound(expressions@.take(k as int), p);
                }
                counts.set(p as usize, c + 1);
            }
            proof {
                assert forall|p: u32| p < 15 implies counts@[p as int] == #[trigger] count_prio(expressions@.take(k + 1), p) by {
                    lemma_count_prio_push(expressions@.take(k as int), e, p);
                }
            }
            k = k + 1;
        }
        assert(expressions@.take(expressions@.len() as int) =~= expressions@);
        let mut p: u32 = 0;
        while p < 15
            invariant
                p <= 15,
                counts@.len() == 15,
                forall|q: u32| q < 15 ==> counts@[q as int] == #[trigger] count_prio(expressions@, q),
                first_bad_target(expressions@) is None,
                first_duplicate(expressions@, 0) == first_duplicate(expressions@, p),
                errors@ == old(errors)@,
            decreases 15 - p,
        {
            if counts[p as usize] > 1 {
                let name = Exp::from_priority(p);
                errors.push(ParserError::DuplicateModifier(name.to_string()));
                assert(errors@.map_values(|e: ParserError| e@) =~= old(errors)@.map_values(|e: ParserError| e@)
                    + spec_validate_expressions(expressions@).1);
                return false;
            }
            p = p + 1;
        }
        assert(errors@.map_values(|e: ParserError| e@) =~= old(errors)@.map_values(|e: ParserError| e@)
            + spec_validate_expressions(expressions@).1);
        true
    }

    /// Checks the written extensions for illegal and duplicate ones, then the intervals for
    /// incompatible pairs.
    fn validate_extensions(&self, expressions: &Vec<Exp>, errors: &mut Vec<ParserError>, intervals: &[Interval]) -> (r:
        bool)
        ensures
            r == spec_validate_extensions(expressions@, intervals@).0,
            final(errors)@.map_values(|e: ParserError| e@) == old(errors)@.map_values(|e: ParserError| e@)
                + spec_validate_extensions(expressions@, intervals@).1,
    {
        let mut seen: Vec<bool> = vec![false; 24];
        let mut k: usize = 0;
        while k < expressions.len()
            invariant
                k <= expressions@.len(),
                seen@.len() == 24,
                extension_scan(expressions@.take(k as int)) matches Ok(s) && forall|st: u8|
                    st < 24 ==> (seen@[st as int] <==> #[trigger] s.contains(st)),
                errors@ == old(errors)@,
            decreases expressions@.len() - k,
        {
            let e = expressions[k];
            assert(expressions@.take(k + 1) =~= expressions@.take(k as int).push(e));
            assert(expressions@.take(k + 1).drop_last() =~= expressions@.take(k as int));
            match e {
                Exp::Extension(x) => {
                    let bad = match x.interval {
                        Interval::MinorSecond | Interval::MajorSecond | Interval::MinorThird | Interval::MajorThird
                        | Interval::DiminishedSeventh | Interval::MajorSeventh => true,
                        _ => false,
                    };
                    if bad {
                        errors.push(ParserError::InvalidExtension(x.pos));
                        proof {
                            lemma_scan_error_stays(expressions@, k as int + 1);
                        }
                        assert(errors@.map_values(|e: ParserError| e@) =~= old(errors)@.map_values(
                            |e: ParserError| e@,
                        ) + spec_validate_extensions(expressions@, intervals@).1);
                        return false;
                    }
                    let st = x.interval.st();
                    if seen[st as usize] {
                        errors.push(ParserError::DuplicateExtension(x.pos));
                        proof {
                            lemma_scan_error_stays(expressions@, k as int + 1);
                        }
                        assert(errors@.map_values(|e: ParserError| e@) =~= old(errors)@.map_values(
                            |e: ParserError| e@,
                        ) + spec_validate_extensions(expressions@, intervals@).1);
                        return false;
                    }
                    seen.set(st as usize, true);
                },
                _ => {},
            }
            k = k + 1;
        }
        assert(expressions@.take(expressions@.len() as int) =~= expressions@);
        let found = self.has_inconsistent_extensions(errors, intervals);
        !found
    }

    /// Appends an error for each incompatible pair of intervals, and says whether there was any.
    fn has_inconsistent_extensions(&self, errors: &mut Vec<ParserError>, intervals: &[Interval]) -> (r: bool)
        ensures
            r == (inconsistencies(intervals@.to_set(), 0).len() > 0),
            final(errors)@.map_values(|e: ParserError| e@) == old(errors)@.map_values(|e: ParserError| e@)
                + inconsistencies(intervals@.to_set(), 0),
    {
        let ghost s = intervals@.to_set();
        let mut k: usize = 0;
        let mut found = false;
        while k < 8
            invariant
                k <= 8,
                s == intervals@.to_set(),
                errors@.map_values(|e: ParserError| e@) + inconsistencies(s, k as int) == old(errors)@.map_values(
                    |e: ParserError| e@,
                ) + inconsistencies(s, 0),
                found == (errors@.len() > old(errors)@.len()),
                errors@.len() >= old(errors)@.len(),
            decreases 8 - k,
        {
            let (r, a, b) = incompatible_pair(k);
            let has_a = contains_interval(intervals, a);
            let has_b = contains_interval(intervals, b);
            let ghost before = errors@.map_values(|e: ParserError| e@);
            if has_a && has_b {
                errors.push(ParserError::InconsistentExtension(r.to_chord_notation().to_string()));
                found = true;
                assert(errors@.map_values(|e: ParserError| e@) =~= before.push(
                    ErrorView::InconsistentExtension(spec_notation(r)),
                ));
            }
            assert(errors@.map_values(|e: ParserError| e@) + inconsistencies(s, k + 1) =~= before
                + inconsistencies(s, k as int));
            k = k + 1;
        }
        proof {
            assert(errors@.map_values(|e: ParserError| e@) =~= old(errors)@.map_values(|e: ParserError| e@)
                + inconsistencies(s, 0));
            if found {
                assert(inconsistencies(s, 0).len() > 0);
            } else {
                assert(errors@.len() == old(errors)@.len());
            }
        }
        found
    }

    /// Appends an error for each run of three consecutive semitones (within an octave), and
    /// says whether there was none.
    fn validate_semitones(&self, errors: &mut Vec<ParserError>, input_intervals: &[Interval]) -> (r: bool)
        ensures
            r == (semitone_runs(input_intervals@, 0).len() == 0),
            final(errors)@.map_values(|e: ParserError| e@) == old(errors)@.map_values(|e: ParserError| e@)
                + semitone_runs(input_intervals@, 0),
    {
        let mut present: Vec<bool> = vec![false; 12];
        let mut last: Vec<Interval> = vec![Interval::Unison; 12];
        let mut k: usize = 0;
        while k < input_intervals.len()
            invariant
                k <= input_intervals@.len(),
                present@.len() == 12,
                last@.len() == 12,
                forall|p: int| 0 <= p < 12 ==> (present@[p] <==> #[trigger] has_class(input_intervals@.take(k as int), p)),
                forall|p: int| 0 <= p < 12 ==> last@[p] == #[trigger] last_of_class(input_intervals@.take(k as int), p),
            decreases input_intervals@.len() - k,
        {
            let i = input_intervals[k];
            let pos = (i.st() % 12) as usize;
            let ghost pre = input_intervals@.take(k as int);
            let ghost post = input_intervals@.take(k + 1);
            assert(post =~= pre.push(i));
            assert(post.drop_last() =~= pre);
            present.set(pos, true);
            last.set(pos, i);
            proof {
                assert forall|p: int| 0 <= p < 12 implies (present@[p] <==> #[trigger] has_class(post, p)) by {
                    if has_class(pre, p) {
                        let j = choose|j: int| 0 <= j < pre.len() && spec_st(#[trigger] pre[j]) % 12 == p;
                        assert(post[j] == pre[j]);
                    }
                    if has_class(post, p) && p != pos {
                        let j = choose|j: int| 0 <= j < post.len() && spec_st(#[trigger] post[j]) % 12 == p;
                        assert(j < pre.len());
                        assert(pre[j] == post[j]);
                    }
                    if p == pos {
                        assert(post[k as int] == i);
                    }
                }
                assert forall|p: int| 0 <= p < 12 implies last@[p] == #[trigger] last_of_class(post, p) by {
                    assert(post.last() == i);
                    assert(spec_st(i) % 12 == pos as int);
                    if p != pos as int {
                        assert(last_of_class(post, p) == last_of_class(pre, p));
                    }
                }
            }
            k = k + 1;
        }
        assert(input_intervals@.take(input_intervals@.len() as int) =~= input_intervals@);
        let ghost s = input_intervals@;
        let mut is_valid = true;
        let mut i: usize = 0;
        while i < 12
            invariant
                i <= 12,
                present@.len() == 12,
                last@.len() == 12,
                forall|p: int| 0 <= p < 12 ==> (present@[p] <==> #[trigger] has_class(s, p)),
                forall|p: int| 0 <= p < 12 ==> last@[p] == #[trigger] last_of_class(s, p),
                s == input_intervals@,
                errors@.map_values(|e: ParserError| e@) + semitone_runs(s, i as int) == old(errors)@.map_values(
                    |e: ParserError| e@,
                ) + semitone_runs(s, 0),
                is_valid == (errors@.len() == old(errors)@.len()),
                errors@.len() >= old(errors)@.len(),
            decreases 12 - i,
        {
            let a = (i + 1) % 12;
            let b = (i + 2) % 12;
            let ghost before = errors@.map_values(|e: ParserError| e@);
            if present[i] && present[a] && present[b] {
                is_valid = false;
                let mut names: Vec<String> = Vec::new();
                names.push(last[i].to_chord_notation().to_string());
                names.push(last[a].to_chord_notation().to_string());
                names.push(last[b].to_chord_notation().to_string());
                errors.push(ParserError::ThreeConsecutiveSemitones(names));
                assert(names@.map_values(|x: String| x@) =~= seq![
                    spec_notation(last_of_class(s, i as int)),
                    spec_notation(last_of_class(s, a as int)),
                    spec_notation(last_of_class(s, b as int)),
                ]);
                assert(errors@.map_values(|e: ParserError| e@) =~= before.push(
                    ErrorView::ThreeConsecutiveSemitones(names@.map_values(|x: String| x@)),
                ));
            }
            assert(errors@.map_values(|e: ParserError| e@) + semitone_runs(s, i + 1) =~= before + semitone_runs(
                s,
                i as int,
            ));
            i = i + 1;
        }
        proof {
            assert(errors@.map_values(|e: ParserError| e@) =~= old(errors)@.map_values(|e: ParserError| e@)
                + semitone_runs(s, 0));
            if !is_valid {
                assert(semitone_runs(s, 0).len() > 0);
            } else {
                assert(semitone_runs(s, 0).len() == 0);
            }
        }
        is_valid
    }
}

/// The `k`-th incompatible pair, with the interval reported.
fn incompatible_pair(k: usize) -> (r: (Interval, Interval, Interval))
    requires
        k < 8,
    ensures
        r == incompatible(k as int),
{
    if k == 0 { (Interval::MajorThird, Interval::MajorThird, Interval::MinorThird) }
    else if k == 1 { (Interval::PerfectFifth, Interval::PerfectFifth, Interval::DiminishedFifth) }
    else if k == 2 { (Interval::PerfectFifth, Interval::PerfectFifth, Interval::AugmentedFifth) }
    else if k == 3 { (Interval::MajorSixth, Interval::MajorSixth, Interval::MinorSixth) }
    else if k == 4 { (Interval::Ninth, Interval::Ninth, Interval::FlatNinth) }
    else if k == 5 { (Interval::Ninth, Interval::Ninth, Interval::SharpNinth) }
    else if k == 6 { (Interval::Eleventh, Interval::Eleventh, Interval::SharpEleventh) }
    else { (Interval::Thirteenth, Interval::Thirteenth, Interval::FlatThirteenth) }
}

/// Whether `x` occurs in `s`.
pub fn contains_interval(s: &[Interval], x: Interval) -> (r: bool)
    ensures
        r == s@.to_set().contains(x),
{
    let mut k: usize = 0;
    while k < s.len()
        invariant
            k <= s@.len(),
            forall|j: int| 0 <= j < k ==> s@[j] != x,
        decreases s@.len() - k,
    {
        if s[k] == x {
            assert(s@.to_set().contains(s@[k as int]));
            return true;
        }
        k = k + 1;
    }
    proof {
        if s@.to_set().contains(x) {
            assert(s@.contains(x));
        }
    }
    false
}

proof fn lemma_count_bound(exps: Seq<Exp>, p: u32)
    ensures
        count_prio(exps, p) <= exps.len(),
    decreases exps.len(),
{
    if exps.len() > 0 {
        lemma_count_bound(exps.drop_last(), p);
    }
}

/// Once the first `k` expressions have an illegal target at their end, the whole sequence
/// reports that one.
proof fn lemma_first_bad_extends(exps: Seq<Exp>, k: int)
    requires
        0 <= k < exps.len(),
        first_bad_target(exps.take(k)) is None,
        !spec_validate(exps[k]).0,
    ensures
        first_bad_target(exps) == Some(spec_validate(exps[k]).1),
{
    assert(exps.take(k + 1).drop_last() =~= exps.take(k));
    lemma_first_bad_prefix(exps, k + 1);
}

proof fn lemma_first_bad_prefix(exps: Seq<Exp>, n: int)
    requires
        0 <= n <= exps.len(),
        first_bad_target(exps.take(n)) is Some,
    ensures
        first_bad_target(exps) == first_bad_target(exps.take(n)),
    decreases exps.len() - n,
{
    if n < exps.len() {
        assert(exps.take(n + 1).drop_last() =~= exps.take(n));
        lemma_first_bad_prefix(exps, n + 1);
    } else {
        assert(exps.take(n) =~= exps);
    }
}

proof fn lemma_scan_error_stays(exps: Seq<Exp>, n: int)
    requires
        0 <= n <= exps.len(),
        extension_scan(exps.take(n)) is Err,
    ensures
        extension_scan(exps) == extension_scan(exps.take(n)),
    decreases exps.len() - n,
{
    if n < exps.len() {
        assert(exps.take(n + 1).drop_last() =~= exps.take(n));
        lemma_scan_error_stays(exps, n + 1);
    } else {
        assert(exps.take(n) =~= exps);
    }
}

} // verus!
