//! Turns a parsed chord symbol into a chord: its intervals, notes, quality and names.
//!
//! The expressions are read in order into a descriptor; then the base form, the suspension,
//! the alterations, the implied extensions, the omissions and the additions are applied in
//! turn to the chord's interval set, which is finally checked by the validator.
use crate::chord::interval::{interval_order, spec_degree, spec_numeric, spec_st, Interval, IntervalSet};
use crate::chord::note::{literal_text, note_text, offset_of, semitone_defined, spec_get_note, spec_to_semitone, Note, NoteLiteral};
use crate::chord::{Chord, ChordView};
use crate::parsing::ast::{spec_apply_form, Ast, BaseForm};
use crate::parsing::expression::{Exp, ExtensionExp, SusExp};
use crate::parsing::normalize::{spec_chord_quality, spec_normalized};
use crate::parsing::parser_error::{errors_view, ErrorView, ParserError, ParserErrors};
use crate::parsing::validator::{spec_validate_all, Validator};
use crate::chord::modifier::{first_index_of, first_position};
use crate::text::str_eq;
use vstd::prelude::*;

verus! {

/// What the expressions of a chord have said so far.
#[derive(Debug)]
pub struct Descriptor {
    pub bass: Option<Note>,
    pub intervals: Vec<Interval>,
    pub display_intervals: Vec<Interval>,
    pub base_form: BaseForm,
    pub omits: Vec<Interval>,
    pub adds: Vec<Interval>,
    pub alts: Vec<Interval>,
    pub sus: Option<Interval>,
    pub third: Option<Interval>,
    pub max_extension: Option<Interval>,
    pub interval_set: IntervalSet,
}

/// A descriptor with its lists as sequences (its interval lists are derived at the end).
pub struct DescModel {
    pub bass: Option<Note>,
    pub base_form: BaseForm,
    pub omits: Seq<Interval>,
    pub adds: Seq<Interval>,
    pub alts: Seq<Interval>,
    pub sus: Option<Interval>,
    pub third: Option<Interval>,
    pub max_extension: Option<Interval>,
    pub set: Set<Interval>,
}

impl Descriptor {
    pub open spec fn model(&self) -> DescModel {
        DescModel {
            bass: self.bass,
            base_form: self.base_form,
            omits: self.omits@,
            adds: self.adds@,
            alts: self.alts@,
            sus: self.sus,
            third: self.third,
            max_extension: self.max_extension,
            set: self.interval_set@,
        }
    }

    /// An empty descriptor: no intervals, major form.
    pub fn new() -> (r: Self)
        ensures
            r.model() == (DescModel {
                bass: None,
                base_form: BaseForm::Major,
                omits: Seq::empty(),
                adds: Seq::empty(),
                alts: Seq::empty(),
                sus: None,
                third: None,
                max_extension: None,
                set: Set::empty(),
            }),
            r.intervals@ == Seq::<Interval>::empty(),
            r.display_intervals@ == Seq::<Interval>::empty(),
    {
        Descriptor {
            bass: None,
            intervals: Vec::new(),
            display_intervals: Vec::new(),
            base_form: BaseForm::Major,
            omits: Vec::new(),
            adds: Vec::new(),
            alts: Vec::new(),
            sus: None,
            third: None,
            max_extension: None,
            interval_set: IntervalSet::new(),
        }
    }

    pub fn insert_seventh(&mut self, seventh: Interval)
        ensures
            final(self).model() == (DescModel { set: old(self).model().set.insert(seventh), ..old(self).model() }),
            final(self).intervals == old(self).intervals,
            final(self).display_intervals == old(self).display_intervals,
    {
        self.interval_set.insert(seventh);
    }

    pub fn insert_sixth(&mut self, sixth: Interval)
        ensures
            final(self).model() == (DescModel { set: old(self).model().set.insert(sixth), ..old(self).model() }),
            final(self).intervals == old(self).intervals,
            final(self).display_intervals == old(self).display_intervals,
    {
        self.interval_set.insert(sixth);
    }
}

/// The descriptor every chord starts from: a major triad.
pub open spec fn spec_seed() -> DescModel {
    DescModel {
        bass: None,
        base_form: BaseForm::Major,
        omits: Seq::empty(),
        adds: Seq::empty(),
        alts: Seq::empty(),
        sus: None,
        third: Some(Interval::MajorThird),
        max_extension: None,
        set: set![Interval::Unison, Interval::MajorThird, Interval::PerfectFifth],
    }
}

/// The larger of two intervals in declaration order.
pub open spec fn later_interval(a: Interval, b: Interval) -> Interval {
    if crate::chord::interval::interval_index(a) >= crate::chord::interval::interval_index(b) { a } else { b }
}

/// What a written extension or alteration says.
pub open spec fn spec_eval_extension(d: DescModel, x: ExtensionExp) -> DescModel {
    let i = x.interval;
    if i == Interval::PerfectFourth || i == Interval::AugmentedFourth || i == Interval::DiminishedFifth
        || i == Interval::AugmentedFifth || i == Interval::FlatNinth || i == Interval::SharpNinth
        || i == Interval::SharpEleventh || i == Interval::FlatThirteenth {
        DescModel { alts: d.alts.push(i), ..d }
    } else if i == Interval::MajorSixth || i == Interval::MinorSixth {
        DescModel { set: d.set.insert(i), ..d }
    } else if i == Interval::MinorSeventh {
        DescModel { set: d.set.insert(i), alts: d.alts.push(i), ..d }
    } else if i == Interval::Ninth || i == Interval::Eleventh || i == Interval::Thirteenth {
        DescModel {
            max_extension: Some(
                later_interval(
                    i,
                    match d.max_extension {
                        Some(m) => m,
                        None => Interval::Unison,
                    },
                ),
            ),
            ..d
        }
    } else {
        d
    }
}

/// What a suspension says: no third, and the suspended interval.
pub open spec fn spec_eval_sus(d: DescModel, x: SusExp) -> DescModel {
    let d1 = DescModel { omits: d.omits.push(Interval::MajorThird), ..d };
    if x.interval == Interval::PerfectFourth {
        DescModel { sus: Some(x.interval), ..d1 }
    } else if x.interval == Interval::AugmentedFourth {
        DescModel { alts: d1.alts.push(Interval::SharpEleventh), ..d1 }
    } else if x.interval == Interval::MinorSecond {
        DescModel { alts: d1.alts.push(Interval::FlatNinth), ..d1 }
    } else if x.interval == Interval::MajorSecond {
        DescModel { alts: d1.alts.push(Interval::Ninth), ..d1 }
    } else {
        d1
    }
}

/// What one expression says.
pub open spec fn spec_eval_exp(d: DescModel, e: Exp) -> DescModel {
    match e {
        Exp::Maj => d,
        Exp::Maj7 => DescModel { set: d.set.insert(Interval::MajorSeventh), ..d },
        Exp::Minor => DescModel { base_form: BaseForm::Minor, third: Some(Interval::MinorThird), ..d },
        Exp::Dim7 => DescModel {
            base_form: BaseForm::Dim7,
            third: Some(Interval::MinorThird),
            set: d.set.insert(Interval::DiminishedSeventh),
            ..d
        },
        Exp::Dim => DescModel { base_form: BaseForm::Dim, third: Some(Interval::MinorThird), ..d },
        Exp::Alt => DescModel {
            omits: d.omits.push(Interval::PerfectFifth),
            set: d.set.insert(Interval::MinorSeventh),
            alts: d.alts + seq![
                Interval::FlatNinth,
                Interval::SharpNinth,
                Interval::SharpEleventh,
                Interval::FlatThirteenth,
            ],
            ..d
        },
        Exp::HalfDim => DescModel {
            base_form: BaseForm::HalfDim,
            third: Some(Interval::MinorThird),
            set: d.set.insert(Interval::MinorSeventh),
            ..d
        },
        Exp::Sus(x) => spec_eval_sus(d, x),
        Exp::Extension(x) => spec_eval_extension(d, x),
        Exp::Add(x) => DescModel { adds: d.adds.push(x.interval), ..d },
        Exp::Aug => DescModel { alts: d.alts.push(Interval::AugmentedFifth), ..d },
        Exp::Omit(x) => DescModel { omits: d.omits.push(x.interval), ..d },
        Exp::Bass => DescModel {
            set: d.set.remove(Interval::PerfectFifth).remove(Interval::MajorThird),
            third: None,
            ..d
        },
        Exp::Power => DescModel { base_form: BaseForm::Power, ..d },
        Exp::SlashBass(x) => DescModel { bass: Some(x.note), ..d },
    }
}

/// What the expressions say, read in order.
pub open spec fn spec_eval_exps(d: DescModel, exps: Seq<Exp>) -> DescModel
    decreases exps.len(),
{
    if exps.len() == 0 {
        d
    } else {
        spec_eval_exp(spec_eval_exps(d, exps.drop_last()), exps.last())
    }
}

/// Applies alterations in order: a flat or sharp fifth or a flat thirteenth replaces the
/// perfect fifth; any other is added.
pub open spec fn spec_apply_alts(s: Set<Interval>, alts: Seq<Interval>) -> Set<Interval>
    decreases alts.len(),
{
    if alts.len() == 0 {
        s
    } else {
        let prev = spec_apply_alts(s, alts.drop_last());
        let a = alts.last();
        if a == Interval::DiminishedFifth || a == Interval::AugmentedFifth || a == Interval::FlatThirteenth {
            prev.remove(Interval::PerfectFifth).insert(a)
        } else {
            prev.insert(a)
        }
    }
}

/// Whether an implied interval is left out because it, or a variant of it, is there already.
pub open spec fn spec_blocked(s: Set<Interval>, x: Interval) -> bool {
    s.contains(x) || (x == Interval::Ninth && (s.contains(Interval::FlatNinth) || s.contains(Interval::SharpNinth)))
        || (x == Interval::Eleventh && s.contains(Interval::SharpEleventh))
        || (x == Interval::Thirteenth && s.contains(Interval::FlatThirteenth))
        || (x == Interval::MinorSeventh && s.contains(Interval::DiminishedSeventh))
}

/// Adds, in order, the intervals that are not blocked.
pub open spec fn spec_add_implied(s: Set<Interval>, xs: Seq<Interval>) -> Set<Interval>
    decreases xs.len(),
{
    if xs.len() == 0 {
        s
    } else {
        let prev = spec_add_implied(s, xs.drop_last());
        if spec_blocked(prev, xs.last()) { prev } else { prev.insert(xs.last()) }
    }
}

/// Whether a set holds a sixth.
pub open spec fn has_sixth(s: Set<Interval>) -> bool {
    s.contains(Interval::MajorSixth) || s.contains(Interval::MinorSixth)
}

/// The intervals a highest extension implies below it: the ninth below an eleventh or a
/// thirteenth (and the eleventh below a thirteenth, but on a major chord), and the seventh
/// below a ninth, eleventh or thirteenth when the chord has no sixth.
pub open spec fn spec_implied_list(ext: Interval, form: BaseForm, s: Set<Interval>, seventh: Interval) -> Seq<Interval> {
    let tail: Seq<Interval> = if has_sixth(s) { Seq::empty() } else { seq![seventh] };
    if ext == Interval::Thirteenth {
        if form == BaseForm::Major {
            seq![Interval::Ninth] + tail
        } else {
            seq![Interval::Eleventh, Interval::Ninth] + tail
        }
    } else if ext == Interval::Eleventh {
        seq![Interval::Ninth] + tail
    } else if ext == Interval::Ninth {
        tail
    } else {
        Seq::empty()
    }
}

/// Adds the highest extension and what it implies (see `spec_implied_list`). The seventh is
/// major when the chord says major. A major chord
/// with an eleventh has a fourth in place of its third instead.
pub open spec fn spec_implied(d: DescModel, has_maj: bool) -> Set<Interval> {
    match d.max_extension {
        None => d.set,
        Some(ext) => {
            let s1 = if d.base_form == BaseForm::Major && ext == Interval::Eleventh {
                d.set.remove(Interval::MajorThird).insert(Interval::PerfectFourth)
            } else {
                d.set.insert(ext)
            };
            let seventh = if has_maj { Interval::MajorSeventh } else { Interval::MinorSeventh };
            spec_add_implied(s1, spec_implied_list(ext, d.base_form, s1, seventh))
        },
    }
}

/// Applies omissions in order: an omitted fifth removes every fifth, an omitted third every
/// third.
pub open spec fn spec_apply_omits(s: Set<Interval>, omits: Seq<Interval>) -> Set<Interval>
    decreases omits.len(),
{
    if omits.len() == 0 {
        s
    } else {
        let prev = spec_apply_omits(s, omits.drop_last());
        let o = omits.last();
        if o == Interval::PerfectFifth {
            prev.remove(Interval::PerfectFifth).remove(Interval::AugmentedFifth).remove(Interval::DiminishedFifth)
        } else if o == Interval::MajorThird {
            prev.remove(Interval::MinorThird).remove(Interval::MajorThird)
        } else {
            prev
        }
    }
}

/// Whether a set holds a seventh.
pub open spec fn has_seventh(s: Set<Interval>) -> bool {
    s.contains(Interval::MinorSeventh) || s.contains(Interval::MajorSeventh)
}

/// Applies additions in order: an added flat thirteenth removes the perfect fifth, and on a
/// major chord with a seventh an added eleventh takes the place of the third, as a fourth.
pub open spec fn spec_apply_adds(s: Set<Interval>, adds: Seq<Interval>, major: bool) -> Set<Interval>
    decreases adds.len(),
{
    if adds.len() == 0 {
        s
    } else {
        let prev = spec_apply_adds(s, adds.drop_last(), major);
        let a = adds.last();
        if a == Interval::FlatThirteenth {
            prev.remove(Interval::PerfectFifth).insert(a)
        } else if a == Interval::Eleventh && major && has_seventh(prev) {
            prev.remove(Interval::MajorThird).insert(Interval::PerfectFourth)
        } else {
            prev.insert(a)
        }
    }
}

/// Whether the expressions say major.
pub open spec fn says_major(exps: Seq<Exp>) -> bool {
    exists|i: int| 0 <= i < exps.len() && (exps[i] is Maj7 || exps[i] is Maj)
}

/// The descriptor after reading the expressions.
pub open spec fn spec_described(exps: Seq<Exp>) -> DescModel {
    spec_eval_exps(spec_seed(), exps)
}

/// The interval set after the base form.
pub open spec fn spec_after_form(exps: Seq<Exp>) -> Set<Interval> {
    let d = spec_described(exps);
    spec_apply_form(d.base_form, d.set)
}

/// The interval set after the suspension: no third, the suspended interval.
pub open spec fn spec_after_sus(exps: Seq<Exp>) -> Set<Interval> {
    match spec_described(exps).sus {
        Some(x) => spec_after_form(exps).remove(Interval::MinorThird).remove(Interval::MajorThird).insert(x),
        None => spec_after_form(exps),
    }
}

/// The interval set after the alterations.
pub open spec fn spec_after_alts(exps: Seq<Exp>) -> Set<Interval> {
    spec_apply_alts(spec_after_sus(exps), spec_described(exps).alts)
}

/// The interval set after the implied extensions.
pub open spec fn spec_after_implied(exps: Seq<Exp>) -> Set<Interval> {
    spec_implied(DescModel { set: spec_after_alts(exps), ..spec_described(exps) }, says_major(exps))
}

/// The interval set after the omissions.
pub open spec fn spec_after_omits(exps: Seq<Exp>) -> Set<Interval> {
    spec_apply_omits(spec_after_implied(exps), spec_described(exps).omits)
}

/// The interval set after the additions.
pub open spec fn spec_after_adds(exps: Seq<Exp>) -> Set<Interval> {
    spec_apply_adds(spec_after_omits(exps), spec_described(exps).adds, spec_described(exps).base_form == BaseForm::Major)
}

/// The interval set of a chord: the base form, suspension, alterations, implied extensions,
/// omissions and additions applied in turn.
pub open spec fn spec_final_set(exps: Seq<Exp>) -> Set<Interval> {
    spec_after_adds(exps)
}

/// The interval of the first suspension, if any.
pub open spec fn first_sus(exps: Seq<Exp>) -> Option<Interval>
    decreases exps.len(),
{
    if exps.len() == 0 {
        None
    } else {
        match first_sus(exps.drop_last()) {
            Some(x) => Some(x),
            None => match exps.last() {
                Exp::Sus(x) => Some(x.interval),
                _ => None,
            },
        }
    }
}

/// How an interval is shown in a chord suspended on `sus`: the suspended second or fourth
/// takes the place of its compound.
pub open spec fn sus_display(sus: Interval, i: Interval) -> Interval {
    if sus == Interval::MinorSecond && i == Interval::FlatNinth {
        Interval::MinorSecond
    } else if sus == Interval::MajorSecond && i == Interval::Ninth {
        Interval::MajorSecond
    } else if sus == Interval::AugmentedFourth && i == Interval::SharpEleventh {
        Interval::AugmentedFourth
    } else {
        i
    }
}

/// The intervals of a chord, by semitones from the root.
pub open spec fn spec_intervals(exps: Seq<Exp>) -> Seq<Interval> {
    interval_order(spec_final_set(exps), 23)
}

/// Whether a major chord's fourth stands for its eleventh: the eleventh was its highest
/// extension, or was added, and took the place of the third.
pub open spec fn eleventh_as_fourth(exps: Seq<Exp>) -> bool {
    let d = spec_described(exps);
    d.base_form == BaseForm::Major && (d.max_extension == Some(Interval::Eleventh) || d.adds.contains(Interval::Eleventh))
}

/// The interval set as shown: a fourth that stands for the eleventh is shown as the eleventh.
pub open spec fn spec_shown_set(exps: Seq<Exp>) -> Set<Interval> {
    let s = spec_final_set(exps);
    if eleventh_as_fourth(exps) && s.contains(Interval::PerfectFourth) && !s.contains(Interval::Eleventh) {
        s.remove(Interval::PerfectFourth).insert(Interval::Eleventh)
    } else {
        s
    }
}

/// The intervals of a chord as shown: in a suspended chord the suspended interval in place of
/// its compound, in the order of the intervals; otherwise the shown set by semitones.
pub open spec fn spec_display(exps: Seq<Exp>) -> Seq<Interval> {
    match first_sus(exps) {
        Some(x) => spec_intervals(exps).map_values(|i: Interval| sus_display(x, i)),
        None => interval_order(spec_shown_set(exps), 23),
    }
}

/// The note at an interval above the root, spelled on the interval's degree.
pub open spec fn note_at(root: Note, i: Interval) -> Note {
    spec_get_note(root, spec_st(i) as int, spec_numeric(spec_degree(i)) as int)
}

/// How many characters the root's written form takes at position `i` of `name`: its text, as
/// `Note::to_string` writes it, when that is what stands there; the letter and a `♯` or `♭`
/// for a root a semitone up or down written with those signs; otherwise none.
pub open spec fn root_text_len(name: Seq<char>, i: int, root: Note) -> int {
    let t = note_text(root);
    if i + t.len() <= name.len() && name.subrange(i, i + t.len()) == t {
        t.len() as int
    } else if i + 2 <= name.len() && ((offset_of(root) == 1 && name[i + 1] == '♯') || (offset_of(root) == -1
        && name[i + 1] == '♭')) {
        2
    } else {
        0
    }
}

/// A chord symbol with its root taken out: the root's written form where the root's letter
/// first occurs.
pub open spec fn without_root(name: Seq<char>, root: Note) -> Seq<char> {
    match first_index_of(name, literal_text(root.literal)[0]) {
        Some(i) => name.take(i) + name.skip(i + root_text_len(name, i, root)),
        None => name,
    }
}

/// The chord a parsed symbol evaluates to, or the errors that reject it.
pub open spec fn spec_evaluate(root: Note, exps: Seq<Exp>, name: Seq<char>) -> Result<ChordView, Seq<ErrorView>> {
    let ints = spec_intervals(exps);
    let display = spec_display(exps);
    let (valid, errs) = spec_validate_all(exps, ints);
    if !(valid && errs.len() == 0) {
        Err(errs)
    } else {
        let d = spec_described(exps);
        let set = spec_final_set(exps);
        let q = spec_chord_quality(set, d.third);
        Ok(
            ChordView {
                origin: name,
                descriptor: without_root(name, root),
                normalized: spec_normalized(root, set, q, d.bass),
                root,
                bass: d.bass,
                notes: display.map_values(|i: Interval| note_at(root, i)),
                semitones: display.map_values(|i: Interval| spec_st(i)),
                intervals: display,
                quality: q,
                normalized_intervals: ints,
                interval_degrees: display.map_values(|i: Interval| spec_numeric(spec_degree(i))),
            },
        )
    }
}

/// Whether the notes of a chord on this root can be spelled.
pub open spec fn spellable_root(root: Note) -> bool {
    semitone_defined(root) && spec_to_semitone(root) <= 234
}

/// Evaluates a parsed chord symbol.
pub struct Evaluator<'a> {
    pub ast: &'a Ast,
    pub dc: Descriptor,
    pub is_valid: bool,
    pub errors: Vec<ParserError>,
    pub name: String,
}

/// The descriptor of `exps` with the interval set `set`.
pub open spec fn staged(exps: Seq<Exp>, set: Set<Interval>) -> DescModel {
    DescModel { set, ..spec_described(exps) }
}

impl<'a> Evaluator<'a> {
    /// Evaluates a parsed chord symbol named `name` into a chord, or the errors that reject it.
    pub fn evaluate(ast: &'a Ast, name: String) -> (r: Result<Chord, ParserErrors>)
        requires
            spellable_root(ast.root),
        ensures
            match r {
                Ok(c) => spec_evaluate(ast.root, ast.expressions@, name@) == Ok::<ChordView, Seq<ErrorView>>(c@),
                Err(e) => spec_evaluate(ast.root, ast.expressions@, name@) == Err::<ChordView, Seq<ErrorView>>(
                    errors_view(e.errors@),
                ),
            },
    {
        let mut ev = Evaluator { ast, dc: Descriptor::new(), is_valid: false, errors: Vec::new(), name };
        ev.seed_defaults();
        ev.evaluate_expressions();
        ev.apply_base_form();
        ev.apply_sus();
        ev.apply_alterations();
        ev.implied_extensions();
        ev.apply_omits();
        ev.apply_adds();
        ev.set_intervals();
        ev.validate();
        ev.build_chord()
    }

    fn seed_defaults(&mut self)
        requires
            old(self).dc.model().set == Set::<Interval>::empty(),
        ensures
            final(self).dc.model() == spec_seed(),
            final(self).ast == old(self).ast,
            final(self).name == old(self).name,
            final(self).errors == old(self).errors,
    {
        self.dc.intervals = Vec::new();
        self.dc.intervals.push(Interval::Unison);
        self.dc.base_form = BaseForm::Major;
        self.dc.third = Some(Interval::MajorThird);
        self.dc.bass = None;
        self.dc.omits = Vec::new();
        self.dc.adds = Vec::new();
        self.dc.alts = Vec::new();
        self.dc.sus = None;
        self.dc.max_extension = None;
        self.dc.interval_set.insert(Interval::Unison);
        self.dc.interval_set.insert(Interval::MajorThird);
        self.dc.interval_set.insert(Interval::PerfectFifth);
        assert(self.dc.interval_set@ =~= set![Interval::Unison, Interval::MajorThird, Interval::PerfectFifth]);
        assert(self.dc.omits@ =~= Seq::<Interval>::empty());
    }

    /// Reads the expressions into the descriptor.
    fn evaluate_expressions(&mut self)
        requires
            old(self).dc.model() == spec_seed(),
        ensures
            final(self).dc.model() == spec_described(old(self).ast.expressions@),
            final(self).ast == old(self).ast,
            final(self).name == old(self).name,
            final(self).errors == old(self).errors,
    {
        let exps = &self.ast.expressions;
        let mut k: usize = 0;
        while k < exps.len()
            invariant
                k <= exps@.len(),
                exps == &self.ast.expressions,
                self.ast == old(self).ast,
                self.name == old(self).name,
                self.errors == old(self).errors,
                self.dc.model() == spec_eval_exps(spec_seed(), exps@.take(k as int)),
            decreases exps@.len() - k,
        {
            assert(exps@.take(k + 1).drop_last() =~= exps@.take(k as int));
            let e = exps[k];
            Self::evaluate_exp(&mut self.dc, &e);
            k = k + 1;
        }
        assert(exps@.take(exps@.len() as int) =~= exps@);
    }

    fn evaluate_exp(dc: &mut Descriptor, e: &Exp)
        ensures
            final(dc).model() == spec_eval_exp(old(dc).model(), *e),
    {
        match e {
            Exp::Maj => {},
            Exp::Maj7 => dc.insert_seventh(Interval::MajorSeventh),
            Exp::Minor => Self::evaluate_minor(dc),
            Exp::Dim7 => Self::evaluate_dim7(dc),
            Exp::Dim => Self::evaluate_dim(dc),
            Exp::Alt => Self::evaluate_alt(dc),
            Exp::HalfDim => Self::evaluate_half_dim(dc),
            Exp::Sus(exp) => Self::evaluate_sus(dc, exp),
            Exp::Extension(exp) => Self::evaluate_extension(dc, exp),
            Exp::Add(exp) => dc.adds.push(exp.interval),
            Exp::Aug => dc.alts.push(Interval::AugmentedFifth),
            Exp::Omit(exp) => dc.omits.push(exp.interval),
            Exp::Bass => Self::evaluate_bass(dc),
            Exp::Power => dc.base_form = BaseForm::Power,
            Exp::SlashBass(exp) => dc.bass = Some(exp.note),
        }
    }

    fn evaluate_alt(desc: &mut Descriptor)
        ensures
            final(desc).model() == spec_eval_exp(old(desc).model(), Exp::Alt),
    {
        desc.omits.push(Interval::PerfectFifth);
        desc.insert_seventh(Interval::MinorSeventh);
        desc.alts.push(Interval::FlatNinth);
        desc.alts.push(Interval::SharpNinth);
        desc.alts.push(Interval::SharpEleventh);
        desc.alts.push(Interval::FlatThirteenth);
        assert(desc.alts@ =~= old(desc).alts@ + seq![
            Interval::FlatNinth,
            Interval::SharpNinth,
            Interval::SharpEleventh,
            Interval::FlatThirteenth,
        ]);
    }

    fn evaluate_bass(desc: &mut Descriptor)
        ensures
            final(desc).model() == spec_eval_exp(old(desc).model(), Exp::Bass),
    {
        desc.interval_set.remove(Interval::PerfectFifth);
        desc.interval_set.remove(Interval::MajorThird);
        desc.third = None;
    }

    fn evaluate_sus(desc: &mut Descriptor, exp: &SusExp)
        ensures
            final(desc).model() == spec_eval_sus(old(desc).model(), *exp),
    {
        desc.omits.push(Interval::MajorThird);
        match exp.interval {
            Interval::PerfectFourth => desc.sus = Some(exp.interval),
            Interval::AugmentedFourth => desc.alts.push(Interval::SharpEleventh),
            Interval::MinorSecond => desc.alts.push(Interval::FlatNinth),
            Interval::MajorSecond => desc.alts.push(Interval::Ninth),
            _ => {},
        }
    }

    fn evaluate_minor(desc: &mut Descriptor)
        ensures
            final(desc).model() == spec_eval_exp(old(desc).model(), Exp::Minor),
    {
        desc.base_form = BaseForm::Minor;
        desc.third = Some(Interval::MinorThird);
    }

    fn evaluate_dim(desc: &mut Descriptor)
        ensures
            final(desc).model() == spec_eval_exp(old(desc).model(), Exp::Dim),
    {
        desc.base_form = BaseForm::Dim;
        desc.third = Some(Interval::MinorThird);
    }

    fn evaluate_dim7(desc: &mut Descriptor)
        ensures
            final(desc).model() == spec_eval_exp(old(desc).model(), Exp::Dim7),
    {
        desc.base_form = BaseForm::Dim7;
        desc.third = Some(Interval::MinorThird);
        desc.insert_seventh(Interval::DiminishedSeventh);
    }

    fn evaluate_half_dim(desc: &mut Descriptor)
        ensures
            final(desc).model() == spec_eval_exp(old(desc).model(), Exp::HalfDim),
    {
        desc.base_form = BaseForm::HalfDim;
        desc.third = Some(Interval::MinorThird);
        desc.insert_seventh(Interval::MinorSeventh);
    }

    fn evaluate_extension(desc: &mut Descriptor, exp: &ExtensionExp)
        ensures
            final(desc).model() == spec_eval_extension(old(desc).model(), *exp),
    {
        match exp.interval {
            Interval::PerfectFourth | Interval::AugmentedFourth | Interval::DiminishedFifth
            | Interval::AugmentedFifth | Interval::FlatNinth | Interval::SharpNinth
            | Interval::SharpEleventh | Interval::FlatThirteenth => desc.alts.push(exp.interval),
            Interval::MajorSixth | Interval::MinorSixth => desc.insert_sixth(exp.interval),
            Interval::MinorSeventh => {
                desc.insert_seventh(exp.interval);
                desc.alts.push(exp.interval);
            },
            Interval::Ninth | Interval::Eleventh | Interval::Thirteenth => {
                let current = match desc.max_extension {
                    Some(m) => m,
                    None => Interval::Unison,
                };
                let later = if exp.interval.index() >= current.index() { exp.interval } else { current };
                desc.max_extension = Some(later);
            },
            _ => {},
        }
    }

    /// Updates the interval set for the base form.
    fn apply_base_form(&mut self)
        requires
            old(self).dc.model() == spec_described(old(self).ast.expressions@),
        ensures
            final(self).dc.model() == staged(old(self).ast.expressions@, spec_after_form(old(self).ast.expressions@)),
            final(self).ast == old(self).ast,
            final(self).name == old(self).name,
            final(self).errors == old(self).errors,
    {
        let form = self.dc.base_form;
        form.apply(&mut self.dc.interval_set);
    }

    fn apply_sus(&mut self)
        requires
            old(self).dc.model() == staged(old(self).ast.expressions@, spec_after_form(old(self).ast.expressions@)),
        ensures
            final(self).dc.model() == staged(old(self).ast.expressions@, spec_after_sus(old(self).ast.expressions@)),
            final(self).ast == old(self).ast,
            final(self).name == old(self).name,
            final(self).errors == old(self).errors,
    {
        match self.dc.sus {
            Some(sus) => {
                Self::remove_thirds(&mut self.dc.interval_set);
                self.dc.interval_set.insert(sus);
            },
            None => {},
        }
    }

    fn apply_alterations(&mut self)
        requires
            old(self).dc.model() == staged(old(self).ast.expressions@, spec_after_sus(old(self).ast.expressions@)),
        ensures
            final(self).dc.model() == staged(old(self).ast.expressions@, spec_after_alts(old(self).ast.expressions@)),
            final(self).ast == old(self).ast,
            final(self).name == old(self).name,
            final(self).errors == old(self).errors,
    {
        let ghost exps = self.ast.expressions@;
        let ghost start = self.dc.interval_set@;
        let mut k: usize = 0;
        while k < self.dc.alts.len()
            invariant
                k <= self.dc.alts@.len(),
                self.ast == old(self).ast,
                self.name == old(self).name,
                self.errors == old(self).errors,
                self.dc.model() == staged(exps, spec_apply_alts(start, self.dc.alts@.take(k as int))),
                exps == old(self).ast.expressions@,
                start == spec_after_sus(exps),
            decreases self.dc.alts@.len() - k,
        {
            assert(self.dc.alts@.take(k + 1).drop_last() =~= self.dc.alts@.take(k as int));
            let alt = self.dc.alts[k];
            match alt {
                Interval::DiminishedFifth | Interval::AugmentedFifth | Interval::FlatThirteenth => {
                    self.dc.interval_set.remove_then_add(Interval::PerfectFifth, alt)
                },
                _ => self.dc.interval_set.insert(alt),
            }
            k = k + 1;
        }
        assert(self.dc.alts@.take(self.dc.alts@.len() as int) =~= self.dc.alts@);
    }

    /// Whether an expression says major.
    fn says_major(exps: &Vec<Exp>) -> (r: bool)
        ensures
            r == says_major(exps@),
    {
        let mut k: usize = 0;
        while k < exps.len()
            invariant
                k <= exps@.len(),
                forall|i: int| 0 <= i < k ==> !(exps@[i] is Maj7 || exps@[i] is Maj),
            decreases exps@.len() - k,
        {
            match exps[k] {
                Exp::Maj7 | Exp::Maj => {
                    return true;
                },
                _ => {},
            }
            k = k + 1;
        }
        false
    }

    /// Adds the highest extension and the intervals it implies.
    fn implied_extensions(&mut self)
        requires
            old(self).dc.model() == staged(old(self).ast.expressions@, spec_after_alts(old(self).ast.expressions@)),
        ensures
            final(self).dc.model() == staged(old(self).ast.expressions@, spec_after_implied(old(self).ast.expressions@)),
            final(self).ast == old(self).ast,
            final(self).name == old(self).name,
            final(self).errors == old(self).errors,
    {
        let ghost exps = self.ast.expressions@;
        match self.dc.max_extension {
            None => {},
            Some(ext) => {
                if self.dc.base_form == BaseForm::Major && ext == Interval::Eleventh {
                    self.dc.interval_set.remove_then_add(Interval::MajorThird, Interval::PerfectFourth);
                } else {
                    self.dc.interval_set.insert(ext);
                }
                let seventh = if Self::says_major(&self.ast.expressions) {
                    Interval::MajorSeventh
                } else {
                    Interval::MinorSeventh
                };
                let has_sixth = self.dc.interval_set.contains(Interval::MajorSixth)
                    || self.dc.interval_set.contains(Interval::MinorSixth);
                let mut to_add: Vec<Interval> = Vec::new();
                if ext == Interval::Thirteenth {
                    if self.dc.base_form != BaseForm::Major {
                        to_add.push(Interval::Eleventh);
                    }
                    to_add.push(Interval::Ninth);
                } else if ext == Interval::Eleventh {
                    to_add.push(Interval::Ninth);
                }
                if (ext == Interval::Thirteenth || ext == Interval::Eleventh || ext == Interval::Ninth) && !has_sixth {
                    to_add.push(seventh);
                }
                let ghost s1 = self.dc.interval_set@;
                assert(to_add@ =~= spec_implied_list(ext, self.dc.base_form, s1, seventh));
                let mut k: usize = 0;
                while k < to_add.len()
                    invariant
                        k <= to_add@.len(),
                        self.ast == old(self).ast,
                        self.name == old(self).name,
                        self.errors == old(self).errors,
                        exps == old(self).ast.expressions@,
                        self.dc.model() == staged(exps, spec_add_implied(s1, to_add@.take(k as int))),
                    decreases to_add@.len() - k,
                {
                    assert(to_add@.take(k + 1).drop_last() =~= to_add@.take(k as int));
                    let interval = to_add[k];
                    if !Self::blocked(&self.dc.interval_set, interval) {
                        self.dc.interval_set.insert(interval);
                    }
                    k = k + 1;
                }
                assert(to_add@.take(to_add@.len() as int) =~= to_add@);
            },
        }
    }

    /// Whether an implied interval is left out.
    fn blocked(set: &IntervalSet, x: Interval) -> (r: bool)
        ensures
            r == spec_blocked(set@, x),
    {
        set.contains(x) || (x == Interval::Ninth && (set.contains(Interval::FlatNinth) || set.contains(
            Interval::SharpNinth,
        ))) || (x == Interval::Eleventh && set.contains(Interval::SharpEleventh)) || (x == Interval::Thirteenth
            && set.contains(Interval::FlatThirteenth)) || (x == Interval::MinorSeventh && set.contains(
            Interval::DiminishedSeventh,
        ))
    }

    fn apply_omits(&mut self)
        requires
            old(self).dc.model() == staged(old(self).ast.expressions@, spec_after_implied(old(self).ast.expressions@)),
        ensures
            final(self).dc.model() == staged(old(self).ast.expressions@, spec_after_omits(old(self).ast.expressions@)),
            final(self).ast == old(self).ast,
            final(self).name == old(self).name,
            final(self).errors == old(self).errors,
    {
        let ghost exps = self.ast.expressions@;
        let ghost start = self.dc.interval_set@;
        let mut k: usize = 0;
        while k < self.dc.omits.len()
            invariant
                k <= self.dc.omits@.len(),
                self.ast == old(self).ast,
                self.name == old(self).name,
                self.errors == old(self).errors,
                exps == old(self).ast.expressions@,
                start == spec_after_implied(exps),
                self.dc.model() == staged(exps, spec_apply_omits(start, self.dc.omits@.take(k as int))),
            decreases self.dc.omits@.len() - k,
        {
            assert(self.dc.omits@.take(k + 1).drop_last() =~= self.dc.omits@.take(k as int));
            let omit = self.dc.omits[k];
            match omit {
                Interval::PerfectFifth => {
                    self.dc.interval_set.remove(Interval::PerfectFifth);
                    self.dc.interval_set.remove(Interval::AugmentedFifth);
                    self.dc.interval_set.remove(Interval::DiminishedFifth);
                },
                Interval::MajorThird => Self::remove_thirds(&mut self.dc.interval_set),
                _ => {},
            }
            k = k + 1;
        }
        assert(self.dc.omits@.take(self.dc.omits@.len() as int) =~= self.dc.omits@);
    }

    fn apply_adds(&mut self)
        requires
            old(self).dc.model() == staged(old(self).ast.expressions@, spec_after_omits(old(self).ast.expressions@)),
        ensures
            final(self).dc.model() == staged(old(self).ast.expressions@, spec_after_adds(old(self).ast.expressions@)),
            final(self).ast == old(self).ast,
            final(self).name == old(self).name,
            final(self).errors == old(self).errors,
    {
        let ghost exps = self.ast.expressions@;
        let ghost start = self.dc.interval_set@;
        let mut k: usize = 0;
        while k < self.dc.adds.len()
            invariant
                k <= self.dc.adds@.len(),
                self.ast == old(self).ast,
                self.name == old(self).name,
                self.errors == old(self).errors,
                exps == old(self).ast.expressions@,
                start == spec_after_omits(exps),
                self.dc.model() == staged(exps, spec_apply_adds(start, self.dc.adds@.take(k as int), self.dc.base_form == BaseForm::Major)),
            decreases self.dc.adds@.len() - k,
        {
            assert(self.dc.adds@.take(k + 1).drop_last() =~= self.dc.adds@.take(k as int));
            let add = self.dc.adds[k];
            if add == Interval::FlatThirteenth {
                self.dc.interval_set.remove(Interval::PerfectFifth);
                self.dc.interval_set.insert(add);
            } else if add == Interval::Eleventh && self.dc.base_form == BaseForm::Major && (
            self.dc.interval_set.contains(Interval::MinorSeventh) || self.dc.interval_set.contains(Interval::MajorSeventh)) {
                self.dc.interval_set.remove_then_add(Interval::MajorThird, Interval::PerfectFourth);
            } else {
                self.dc.interval_set.insert(add);
            }
            k = k + 1;
        }
        assert(self.dc.adds@.take(self.dc.adds@.len() as int) =~= self.dc.adds@);
    }

    /// Lists the intervals by semitones, and how they are shown.
    fn set_intervals(&mut self)
        requires
            old(self).dc.model() == staged(old(self).ast.expressions@, spec_final_set(old(self).ast.expressions@)),
        ensures
            final(self).dc.model() == old(self).dc.model(),
            final(self).dc.intervals@ == spec_intervals(old(self).ast.expressions@),
            final(self).dc.display_intervals@ == spec_display(old(self).ast.expressions@),
            final(self).ast == old(self).ast,
            final(self).name == old(self).name,
            final(self).errors == old(self).errors,
    {
        self.dc.intervals = self.dc.interval_set.to_vec();
        let sus = Self::first_sus(&self.ast.expressions);
        match sus {
            None => {
                let mut shown = self.dc.interval_set;
                if self.dc.base_form == BaseForm::Major && (self.dc.max_extension == Some(Interval::Eleventh)
                    || Self::adds_eleventh(&self.dc.adds)) && shown.contains(Interval::PerfectFourth)
                    && !shown.contains(Interval::Eleventh) {
                    shown.remove_then_add(Interval::PerfectFourth, Interval::Eleventh);
                }
                self.dc.display_intervals = shown.to_vec();
            },
            Some(x) => {
                let mut display: Vec<Interval> = Vec::new();
                let mut k: usize = 0;
                while k < self.dc.intervals.len()
                    invariant
                        k <= self.dc.intervals@.len(),
                        display@ == self.dc.intervals@.take(k as int).map_values(|i: Interval| sus_display(x, i)),
                    decreases self.dc.intervals@.len() - k,
                {
                    let i = self.dc.intervals[k];
                    let shown = if x == Interval::MinorSecond && i == Interval::FlatNinth {
                        Interval::MinorSecond
                    } else if x == Interval::MajorSecond && i == Interval::Ninth {
                        Interval::MajorSecond
                    } else if x == Interval::AugmentedFourth && i == Interval::SharpEleventh {
                        Interval::AugmentedFourth
                    } else {
                        i
                    };
                    display.push(shown);
                    assert(self.dc.intervals@.take(k + 1).map_values(|i: Interval| sus_display(x, i)) =~= self.dc.intervals@.take(
                        k as int,
                    ).map_values(|i: Interval| sus_display(x, i)).push(shown));
                    k = k + 1;
                }
                assert(self.dc.intervals@.take(self.dc.intervals@.len() as int) =~= self.dc.intervals@);
                self.dc.display_intervals = display;
            },
        }
    }

    /// Whether an eleventh was added.
    fn adds_eleventh(adds: &Vec<Interval>) -> (r: bool)
        ensures
            r == adds@.contains(Interval::Eleventh),
    {
        let mut k: usize = 0;
        while k < adds.len()
            invariant
                k <= adds@.len(),
                forall|j: int| 0 <= j < k ==> adds@[j] != Interval::Eleventh,
            decreases adds@.len() - k,
        {
            if adds[k] == Interval::Eleventh {
                return true;
            }
            k = k + 1;
        }
        false
    }

    /// The interval of the first suspension, if any.
    fn first_sus(exps: &Vec<Exp>) -> (r: Option<Interval>)
        ensures
            r == first_sus(exps@),
    {
        let mut k: usize = 0;
        while k < exps.len()
            invariant
                k <= exps@.len(),
                first_sus(exps@.take(k as int)) is None,
            decreases exps@.len() - k,
        {
            assert(exps@.take(k + 1).drop_last() =~= exps@.take(k as int));
            match exps[k] {
                Exp::Sus(x) => {
                    proof {
                        lemma_first_sus_prefix(exps@, k + 1);
                    }
                    return Some(x.interval);
                },
                _ => {},
            }
            k = k + 1;
        }
        assert(exps@.take(exps@.len() as int) =~= exps@);
        None
    }

    fn validate(&mut self)
        requires
            old(self).dc.intervals@ == spec_intervals(old(self).ast.expressions@),
            old(self).errors@ == Seq::<ParserError>::empty(),
        ensures
            final(self).dc == old(self).dc,
            final(self).ast == old(self).ast,
            final(self).name == old(self).name,
            errors_view(final(self).errors@) == spec_validate_all(old(self).ast.expressions@, spec_intervals(
                old(self).ast.expressions@,
            )).1,
            final(self).is_valid == (spec_validate_all(old(self).ast.expressions@, spec_intervals(
                old(self).ast.expressions@,
            )).0 && spec_validate_all(old(self).ast.expressions@, spec_intervals(old(self).ast.expressions@)).1.len()
                == 0),
    {
        let validator = Validator;
        let ok = validator.validate(&self.ast.expressions, &mut self.errors, self.dc.intervals.as_slice());
        assert(old(self).errors@.map_values(|e: ParserError| e@) =~= Seq::<ErrorView>::empty());
        self.is_valid = ok;
    }

    /// The chord, or the errors that reject it.
    fn build_chord(self) -> (r: Result<Chord, ParserErrors>)
        requires
            spellable_root(self.ast.root),
            self.dc.model() == staged(self.ast.expressions@, spec_final_set(self.ast.expressions@)),
            self.dc.intervals@ == spec_intervals(self.ast.expressions@),
            self.dc.display_intervals@ == spec_display(self.ast.expressions@),
            errors_view(self.errors@) == spec_validate_all(self.ast.expressions@, spec_intervals(self.ast.expressions@)).1,
            self.is_valid == (spec_validate_all(self.ast.expressions@, spec_intervals(self.ast.expressions@)).0
                && spec_validate_all(self.ast.expressions@, spec_intervals(self.ast.expressions@)).1.len() == 0),
        ensures
            match r {
                Ok(c) => spec_evaluate(self.ast.root, self.ast.expressions@, self.name@) == Ok::<ChordView, Seq<ErrorView>>(c@),
                Err(e) => spec_evaluate(self.ast.root, self.ast.expressions@, self.name@) == Err::<ChordView, Seq<ErrorView>>(
                    errors_view(e.errors@),
                ),
            },
    {
        if !self.is_valid {
            return Err(ParserErrors::new(self.errors));
        }
        let notes = self.notes();
        let mut interval_degrees: Vec<u8> = Vec::new();
        let mut k: usize = 0;
        while k < self.dc.display_intervals.len()
            invariant
                k <= self.dc.display_intervals@.len(),
                interval_degrees@ == self.dc.display_intervals@.take(k as int).map_values(|i: Interval| spec_numeric(spec_degree(i))),
            decreases self.dc.display_intervals@.len() - k,
        {
            let d = self.dc.display_intervals[k].to_degree().numeric();
            interval_degrees.push(d);
            assert(self.dc.display_intervals@.take(k + 1).map_values(|i: Interval| spec_numeric(spec_degree(i))) =~= self.dc.display_intervals@.take(
                k as int,
            ).map_values(|i: Interval| spec_numeric(spec_degree(i))).push(d));
            k = k + 1;
        }
        assert(self.dc.display_intervals@.take(self.dc.display_intervals@.len() as int) =~= self.dc.display_intervals@);
        let mut semitones: Vec<u8> = Vec::new();
        let mut k: usize = 0;
        while k < self.dc.display_intervals.len()
            invariant
                k <= self.dc.display_intervals@.len(),
                semitones@ == self.dc.display_intervals@.take(k as int).map_values(|i: Interval| spec_st(i)),
            decreases self.dc.display_intervals@.len() - k,
        {
            let v = self.dc.display_intervals[k].st();
            semitones.push(v);
            assert(self.dc.display_intervals@.take(k + 1).map_values(|i: Interval| spec_st(i)) =~= self.dc.display_intervals@.take(
                k as int,
            ).map_values(|i: Interval| spec_st(i)).push(v));
            k = k + 1;
        }
        assert(self.dc.display_intervals@.take(self.dc.display_intervals@.len() as int) =~= self.dc.display_intervals@);
        let normalized = self.normalize();
        let descriptor = self.descriptor(self.name.as_str());
        let quality = self.quality();
        let chord = Chord::builder(self.name.as_str(), self.ast.root)
            .descriptor(descriptor.as_str())
            .bass(self.dc.bass)
            .notes(notes)
            .semitones(semitones)
            .interval_degrees(interval_degrees)
            .quality(quality)
            .normalized_intervals(self.dc.intervals)
            .intervals(self.dc.display_intervals)
            .normalized(normalized)
            .build();
        Ok(chord)
    }

    /// The notes of the chord, spelled from its root.
    fn notes(&self) -> (r: Vec<Note>)
        requires
            spellable_root(self.ast.root),
        ensures
            r@ == self.dc.display_intervals@.map_values(|i: Interval| note_at(self.ast.root, i)),
    {
        let mut notes: Vec<Note> = Vec::new();
        let mut k: usize = 0;
        while k < self.dc.display_intervals.len()
            invariant
                k <= self.dc.display_intervals@.len(),
                spellable_root(self.ast.root),
                notes@ == self.dc.display_intervals@.take(k as int).map_values(|i: Interval| note_at(self.ast.root, i)),
            decreases self.dc.display_intervals@.len() - k,
        {
            let n = self.dc.display_intervals[k];
            proof {
                lemma_st_bound(n);
                lemma_degree_bound(n);
            }
            let note = self.ast.root.get_note(n.st(), n.to_degree().numeric());
            notes.push(note);
            assert(self.dc.display_intervals@.take(k + 1).map_values(|i: Interval| note_at(self.ast.root, i)) =~= self.dc.display_intervals@.take(
                k as int,
            ).map_values(|i: Interval| note_at(self.ast.root, i)).push(note));
            k = k + 1;
        }
        assert(self.dc.display_intervals@.take(self.dc.display_intervals@.len() as int) =~= self.dc.display_intervals@);
        notes
    }

    /// The descriptor of a chord named `name`: the name with its root taken out.
    pub fn descriptor(&self, name: &str) -> (r: String)
        ensures
            r@ == without_root(name@, self.ast.root),
    {
        let letter = self.ast.root.literal.as_str();
        proof {
            lemma_literal_text_one(self.ast.root.literal);
        }
        let n = name.unicode_len();
        match first_position(name, letter.get_char(0)) {
            Some(i) => {
                proof {
                    lemma_first_index_bound(name@, letter@[0]);
                }
                let k = Self::root_text_len(name, i, &self.ast.root);
                let mut r = name.substring_char(0, i).to_owned();
                let rest = name.substring_char(i + k, n);
                r.append(rest);
                assert(r@ =~= name@.take(i as int) + name@.skip(i + k));
                r
            },
            None => name.to_owned(),
        }
    }

    /// How many characters the root's written form takes at position `i` of `name`.
    fn root_text_len(name: &str, i: usize, root: &Note) -> (k: usize)
        requires
            i < name@.len(),
        ensures
            k == root_text_len(name@, i as int, *root),
            i + k <= name@.len(),
    {
        let t = root.to_string();
        let n = name.unicode_len();
        let tl = t.as_str().unicode_len();
        let off: i8 = match root.modifier {
            Some(m) => m.0,
            None => 0,
        };
        if tl <= n - i {
            let seg = name.substring_char(i, i + tl);
            if str_eq(seg, t.as_str()) {
                return tl;
            }
        }
        if n - i >= 2 && ((off == 1 && name.get_char(i + 1) == '♯') || (off == -1 && name.get_char(i + 1) == '♭')) {
            2
        } else {
            0
        }
    }

    fn remove_thirds(interval_set: &mut IntervalSet)
        ensures
            final(interval_set)@ == old(interval_set)@.remove(Interval::MinorThird).remove(Interval::MajorThird),
    {
        interval_set.remove(Interval::MinorThird);
        interval_set.remove(Interval::MajorThird);
    }
}

proof fn lemma_st_bound(i: Interval)
    ensures
        spec_st(i) <= 21,
{
}

proof fn lemma_degree_bound(i: Interval)
    ensures
        1 <= spec_numeric(spec_degree(i)) <= 13,
{
}

proof fn lemma_first_index_bound(s: Seq<char>, c: char)
    ensures
        first_index_of(s, c) matches Some(i) ==> 0 <= i < s.len(),
    decreases s.len(),
{
    if s.len() > 0 {
        lemma_first_index_bound(s.drop_last(), c);
    }
}

proof fn lemma_literal_text_one(l: NoteLiteral)
    ensures
        literal_text(l).len() == 1,
{
    reveal_strlit("A");
    reveal_strlit("B");
    reveal_strlit("C");
    reveal_strlit("D");
    reveal_strlit("E");
    reveal_strlit("F");
    reveal_strlit("G");
}

proof fn lemma_first_sus_prefix(exps: Seq<Exp>, n: int)
    requires
        0 <= n <= exps.len(),
        first_sus(exps.take(n)) is Some,
    ensures
        first_sus(exps) == first_sus(exps.take(n)),
    decreases exps.len() - n,
{
    if n < exps.len() {
        assert(exps.take(n + 1).drop_last() =~= exps.take(n));
        lemma_first_sus_prefix(exps, n + 1);
    } else {
        assert(exps.take(n) =~= exps);
    }
}

} // verus!
