//! Normalized chord descriptors built from a chord's quality and intervals.
use crate::chord::interval::{
    degree_index, interval_order, spec_degree_from, spec_notation, spec_replace, IntDegree,
    IntDegreeSet, Interval, IntervalSet, interval_index, lemma_interval_index,
};
use crate::chord::quality::{
    fifths_set, spec_alteration_mask, spec_extension_mask, spec_extension_stack, spec_fifths,
    spec_is_sus, spec_thirds, thirds_set, ChordQuality, PitchClass, PitchClassSet,
};
use vstd::prelude::*;

verus! {

/// The degrees of a set of intervals, by the interval-to-degree conversion.
pub open spec fn degrees_of(s: Set<Interval>) -> Set<IntDegree> {
    s.map(|i: Interval| spec_degree_from(i))
}

impl IntDegreeSet {
    /// The degrees of a set of intervals.
    pub fn from_interval_set(value: &IntervalSet) -> (r: IntDegreeSet)
        ensures
            r@ == degrees_of(value@),
    {
        let mut r = IntDegreeSet::new();
        let mut k: u32 = 0;
        while k < 23
            invariant
                k <= 23,
                forall|d: IntDegree| r@.contains(d) <==> exists|i: Interval| value@.contains(i) && interval_index(i) < k && spec_degree_from(i) == d,
            decreases 23 - k,
        {
            let i = Interval::at(k);
            if value.contains(i) {
                r.insert(i.degree_from());
            }
            proof {
                broadcast use lemma_interval_index;
                assert forall|d: IntDegree| r@.contains(d) <==> exists|j: Interval| value@.contains(j) && interval_index(j) < k + 1 && spec_degree_from(j) == d by {
                    if exists|j: Interval| value@.contains(j) && interval_index(j) < k + 1 && spec_degree_from(j) == d {
                        let j = choose|j: Interval| value@.contains(j) && interval_index(j) < k + 1 && spec_degree_from(j) == d;
                        if interval_index(j) == k {
                            assert(j == i);
                        }
                    }
                }
            }
            k = k + 1;
        }
        proof {
            broadcast use lemma_interval_index;
            assert(r@ =~= degrees_of(value@));
        }
        r
    }
}

/// Whether a quality carries a seventh of its own.
pub open spec fn has_own_seventh(q: ChordQuality) -> bool {
    match q {
        ChordQuality::Diminished7 | ChordQuality::Dominant7 | ChordQuality::Maj7 | ChordQuality::Mi7 | ChordQuality::MiMaj7 => true,
        _ => false,
    }
}

/// The degrees that the alterations and extensions of a chord cover, with the seventh
/// when the quality has one; a major sixth counts as a thirteenth.
pub open spec fn spec_extensions_to_degrees(alts: Set<Interval>, exts: Set<Interval>, q: ChordQuality) -> Set<IntDegree> {
    let base = degrees_of(alts).union(degrees_of(spec_replace(exts, Interval::MajorSixth, Interval::Thirteenth)));
    if has_own_seventh(q) {
        base.insert(IntDegree::Seventh)
    } else {
        base
    }
}

/// The degrees of the quality's extension stack up to the degree of `c`.
pub open spec fn stack_below(q: ChordQuality, c: Interval) -> Set<IntDegree> {
    spec_extension_stack(q).filter(|d: IntDegree| degree_index(d) <= degree_index(spec_degree_from(c)))
}

/// Whether `c` can name the chord: every degree of the stack below it is present.
pub open spec fn names_chord(q: ChordQuality, c: Interval, degrees: Set<IntDegree>) -> bool {
    c != Interval::MajorSeventh && stack_below(q, c).subset_of(degrees)
}

/// Splits the ordered extensions of a chord into the one that names it (the last whose
/// stack is complete) and the ones written as additions.
pub open spec fn spec_split(q: ChordQuality, exts: Seq<Interval>, degrees: Set<IntDegree>) -> (Option<Interval>, Seq<Interval>)
    decreases exts.len(),
{
    if exts.len() == 0 {
        (None, Seq::empty())
    } else {
        let (m, a) = spec_split(q, exts.drop_last(), degrees);
        let c = exts.last();
        if names_chord(q, c, degrees) {
            (Some(c), a)
        } else {
            (m, a.push(c))
        }
    }
}

/// The main extension and the additions of a chord; diminished chords have only additions.
pub open spec fn spec_split_extensions(exts: Set<Interval>, alts: Set<Interval>, q: ChordQuality) -> (Option<Interval>, Seq<Interval>) {
    match q {
        ChordQuality::Diminished7 | ChordQuality::Diminished => (None, interval_order(exts, 23)),
        _ => spec_split(q, interval_order(exts, 23), spec_extensions_to_degrees(alts, exts, q)),
    }
}

/// The omitted third and fifth of a chord, as written.
pub open spec fn spec_omits(ints: Set<Interval>, is_sus: bool, q: ChordQuality) -> Seq<Seq<char>> {
    match q {
        ChordQuality::Bass | ChordQuality::Power => Seq::empty(),
        _ => {
            let three: Seq<Seq<char>> = if !is_sus && ints.intersect(spec_thirds()) =~= Set::empty() { seq!["3"@] } else { Seq::empty() };
            if ints.intersect(spec_fifths()) =~= Set::empty() && !ints.contains(Interval::FlatThirteenth) {
                three.push("5"@)
            } else {
                three
            }
        },
    }
}

/// The written quality, with its main extension; `six_with_modifier` says whether a major
/// sixth chord writes its main extension after the 6.
pub open spec fn spec_quality_text(q: ChordQuality, m: Option<Interval>, six_with_modifier: bool) -> Seq<char> {
    let mt = match m {
        Some(i) => spec_notation(i),
        None => Seq::empty(),
    };
    match q {
        ChordQuality::Maj | ChordQuality::Bass => Seq::empty(),
        ChordQuality::Maj6 => if six_with_modifier { "6"@ + mt } else { "6"@ },
        ChordQuality::Maj7 => if m is None { "Ma7"@ } else { "Ma"@ + mt },
        ChordQuality::Dominant7 => if m is None { "7"@ } else { mt },
        ChordQuality::Mi => "mi"@,
        ChordQuality::Mi6 => "mi"@ + "6"@,
        ChordQuality::Mi7 => if m is None { "mi7"@ } else { "mi"@ + mt },
        ChordQuality::MiMaj7 => if m is None { "miMa7"@ } else { "miMa"@ + mt },
        ChordQuality::Augmented => "+"@ + mt,
        ChordQuality::Diminished => "dim"@,
        ChordQuality::Diminished7 => "dim7"@,
        ChordQuality::Power => "5"@,
    }
}

/// A parenthesized list being written: the text so far, and whether the list is open.
pub open spec fn push_item(st: (Seq<char>, bool), prefix: Seq<char>, item: Seq<char>) -> (Seq<char>, bool) {
    (st.0 + (if st.1 { ","@ } else { "("@ }) + prefix + item, true)
}

pub open spec fn fold_alterations(st: (Seq<char>, bool), alts: Seq<Interval>) -> (Seq<char>, bool)
    decreases alts.len(),
{
    if alts.len() == 0 {
        st
    } else {
        push_item(fold_alterations(st, alts.drop_last()), Seq::empty(), spec_notation(alts.last()))
    }
}

/// Adds are written `add` before the first; a ninth on a sixth chord is written as a bare `9`.
pub open spec fn fold_adds(st: (Seq<char>, bool), adds: Seq<Interval>, q: ChordQuality) -> (Seq<char>, bool)
    decreases adds.len(),
{
    if adds.len() == 0 {
        st
    } else {
        let prev = fold_adds(st, adds.drop_last(), q);
        let a = adds.last();
        if a == Interval::Ninth && (q == ChordQuality::Maj6 || q == ChordQuality::Mi6) {
            (prev.0 + "9"@, prev.1)
        } else {
            push_item(prev, if adds.len() == 1 { "add"@ } else { Seq::empty() }, spec_notation(a))
        }
    }
}

pub open spec fn fold_omits(st: (Seq<char>, bool), omits: Seq<Seq<char>>) -> (Seq<char>, bool)
    decreases omits.len(),
{
    if omits.len() == 0 {
        st
    } else {
        push_item(fold_omits(st, omits.drop_last()), if omits.len() == 1 { "omit"@ } else { Seq::empty() }, omits.last())
    }
}

/// The normalized descriptor of a chord (everything after its root name).
pub open spec fn spec_describe(pitch_set: Set<PitchClass>, ints: Set<Interval>, q: ChordQuality, six_with_modifier: bool) -> Seq<char> {
    if q == ChordQuality::Bass {
        "Bass"@
    } else {
        let is_sus = spec_is_sus(q, pitch_set);
        let alts = spec_alteration_mask(q).intersect(ints);
        let exts = spec_replace(spec_extension_mask(q).intersect(ints), Interval::MajorSixth, Interval::Thirteenth);
        let (m, adds0) = spec_split_extensions(exts, alts, q);
        let adds = if is_sus && ints.contains(Interval::MajorThird) { adds0.push(Interval::MajorThird) } else { adds0 };
        let head = spec_quality_text(q, m, six_with_modifier) + if is_sus { "sus"@ } else { Seq::empty() };
        let st = fold_omits(
            fold_adds(fold_alterations((head, false), interval_order(alts, 23)), adds, q),
            spec_omits(ints, is_sus, q),
        );
        if st.1 { st.0 + ")"@ } else { st.0 }
    }
}

/// The degrees covered by alterations and extensions.
pub fn extensions_to_degrees(alterations: &IntervalSet, extensions: &IntervalSet, quality: &ChordQuality) -> (r: IntDegreeSet)
    ensures
        r@ == spec_extensions_to_degrees(alterations@, extensions@, *quality),
{
    let alt_degrees = IntDegreeSet::from_interval_set(alterations);
    let replaced = extensions.replace(Interval::MajorSixth, Interval::Thirteenth);
    let ext_degrees = IntDegreeSet::from_interval_set(&replaced);
    let mut res = alt_degrees.union(&ext_degrees);
    match quality {
        ChordQuality::Diminished7 | ChordQuality::Dominant7 | ChordQuality::Maj7 | ChordQuality::Mi7 | ChordQuality::MiMaj7 => {
            res.insert(IntDegree::Seventh);
        },
        _ => {},
    }
    res
}

/// The degrees of the quality's stack up to the degree of `c`.
fn stack_below_of(quality: &ChordQuality, c: Interval) -> (r: IntDegreeSet)
    ensures
        r@ == stack_below(*quality, c),
{
    let stack = quality.extension_stack();
    let limit = c.degree_from().index();
    let mut r = IntDegreeSet::new();
    let mut k: u32 = 0;
    while k <= limit
        invariant
            limit < 10,
            k <= limit + 1,
            limit == degree_index(spec_degree_from(c)),
            stack@ == spec_extension_stack(*quality),
            forall|d: IntDegree| r@.contains(d) <==> (stack@.contains(d) && degree_index(d) < k),
        decreases limit + 1 - k,
    {
        let d = IntDegree::at(k);
        if stack.contains(d) {
            r.insert(d);
        }
        k = k + 1;
    }
    assert(r@ =~= stack_below(*quality, c));
    r
}

/// Splits the extensions of a chord into the one that names it and the added ones.
pub fn split_extensions(extensions: &IntervalSet, alterations: &IntervalSet, quality: &ChordQuality) -> (r: (Option<Interval>, Vec<Interval>))
    ensures
        (r.0, r.1@) == spec_split_extensions(extensions@, alterations@, *quality),
{
    match quality {
        ChordQuality::Diminished7 | ChordQuality::Diminished => {
            return (None, extensions.to_vec());
        },
        _ => {},
    }
    let mut adds: Vec<Interval> = Vec::new();
    let mut main: Option<Interval> = None;
    let degrees = extensions_to_degrees(alterations, extensions, quality);
    let exts = extensions.to_vec();
    let mut k: usize = 0;
    while k < exts.len()
        invariant
            k <= exts@.len(),
            degrees@ == spec_extensions_to_degrees(alterations@, extensions@, *quality),
            exts@ == interval_order(extensions@, 23),
            (main, adds@) == spec_split(*quality, exts@.take(k as int), degrees@),
        decreases exts@.len() - k,
    {
        let curr = exts[k];
        assert(exts@.take(k + 1).drop_last() =~= exts@.take(k as int));
        if curr == Interval::MajorSeventh {
            adds.push(curr);
        } else {
            let stack = stack_below_of(quality, curr);
            if stack.is_subset_of(&degrees) {
                main = Some(curr);
            } else {
                adds.push(curr);
            }
        }
        k = k + 1;
    }
    assert(exts@.take(exts@.len() as int) =~= exts@);
    (main, adds)
}

/// The omitted third and fifth of a chord.
pub fn omits(interval_set: &IntervalSet, is_sus: bool, quality: &ChordQuality) -> (r: Vec<&'static str>)
    ensures
        r@.map_values(|s: &str| s@) == spec_omits(interval_set@, is_sus, *quality),
{
    let mut res: Vec<&'static str> = Vec::new();
    match quality {
        ChordQuality::Bass | ChordQuality::Power => {
            assert(res@.map_values(|s: &str| s@) =~= Seq::<Seq<char>>::empty());
            return res;
        },
        _ => {},
    }
    let no_third = interval_set.intersection(&thirds_set()).is_empty();
    if !is_sus && no_third {
        res.push("3");
    }
    let no_fifth = interval_set.intersection(&fifths_set()).is_empty();
    if no_fifth && !interval_set.contains(Interval::FlatThirteenth) {
        res.push("5");
    }
    assert(res@.map_values(|s: &str| s@) =~= spec_omits(interval_set@, is_sus, *quality));
    res
}

/// Appends the written quality and its main extension.
pub fn append_quality_modifier(f: &mut String, quality: &ChordQuality, modifier: Option<Interval>, six_with_modifier: bool)
    ensures
        final(f)@ == old(f)@ + spec_quality_text(*quality, modifier, six_with_modifier),
{
    let ghost start = f@;
    let mt: &str = match modifier {
        Some(m) => m.to_chord_notation(),
        None => "",
    };
    proof {
        reveal_strlit("");
    }
    match quality {
        ChordQuality::Maj | ChordQuality::Bass => {},
        ChordQuality::Maj6 => {
            f.append("6");
            if six_with_modifier {
                f.append(mt);
            }
        },
        ChordQuality::Maj7 => match modifier {
            None => f.append("Ma7"),
            Some(_) => {
                f.append("Ma");
                f.append(mt);
            },
        },
        ChordQuality::Dominant7 => match modifier {
            None => f.append("7"),
            Some(_) => f.append(mt),
        },
        ChordQuality::Mi => f.append("mi"),
        ChordQuality::Mi6 => {
            f.append("mi");
            f.append("6");
        },
        ChordQuality::Mi7 => match modifier {
            None => f.append("mi7"),
            Some(_) => {
                f.append("mi");
                f.append(mt);
            },
        },
        ChordQuality::MiMaj7 => match modifier {
            None => f.append("miMa7"),
            Some(_) => {
                f.append("miMa");
                f.append(mt);
            },
        },
        ChordQuality::Augmented => {
            f.append("+");
            f.append(mt);
        },
        ChordQuality::Diminished => f.append("dim"),
        ChordQuality::Diminished7 => f.append("dim7"),
        ChordQuality::Power => f.append("5"),
    }
    assert(f@ =~= start + spec_quality_text(*quality, modifier, six_with_modifier));
}

fn append_item(d: &mut String, open: &mut bool, prefix: &str, item: &str)
    ensures
        (final(d)@, *final(open)) == push_item((old(d)@, *old(open)), prefix@, item@),
{
    if !*open {
        d.append("(");
        *open = true;
    } else {
        d.append(",");
    }
    d.append(prefix);
    d.append(item);
}

/// Writes the normalized descriptor of a chord from its pitch classes, intervals and quality.
pub fn describe(pitch_set: &PitchClassSet, interval_set: &IntervalSet, quality: &ChordQuality, six_with_modifier: bool) -> (r: String)
    ensures
        r@ == spec_describe(pitch_set@, interval_set@, *quality, six_with_modifier),
{
    let mut descriptor = String::new();
    if *quality == ChordQuality::Bass {
        descriptor.append("Bass");
        return descriptor;
    }
    let is_sus = quality.is_sus(pitch_set);
    let alterations = quality.alterations(interval_set);
    let extensions = quality.extensions(interval_set).replace(Interval::MajorSixth, Interval::Thirteenth);
    let (modifier, mut adds) = split_extensions(&extensions, &alterations, quality);
    let omit_list = omits(interval_set, is_sus, quality);
    append_quality_modifier(&mut descriptor, quality, modifier, six_with_modifier);
    if is_sus {
        if interval_set.contains(Interval::MajorThird) {
            adds.push(Interval::MajorThird);
        }
        descriptor.append("sus");
    }
    proof {
        reveal_strlit("");
    }
    let mut open = false;
    let alts = alterations.to_vec();
    let ghost head = descriptor@;
    let mut k: usize = 0;
    while k < alts.len()
        invariant
            k <= alts@.len(),
            (descriptor@, open) == fold_alterations((head, false), alts@.take(k as int)),
        decreases alts@.len() - k,
    {
        assert(alts@.take(k + 1).drop_last() =~= alts@.take(k as int));
        append_item(&mut descriptor, &mut open, "", alts[k].to_chord_notation());
        proof {
            reveal_strlit("");
            assert(""@ =~= Seq::<char>::empty());
        }
        k = k + 1;
    }
    assert(alts@.take(alts@.len() as int) =~= alts@);
    let ghost after_alts = (descriptor@, open);
    let mut k: usize = 0;
    while k < adds.len()
        invariant
            k <= adds@.len(),
            (descriptor@, open) == fold_adds(after_alts, adds@.take(k as int), *quality),
        decreases adds@.len() - k,
    {
        assert(adds@.take(k + 1).drop_last() =~= adds@.take(k as int));
        let add = adds[k];
        if add == Interval::Ninth && (*quality == ChordQuality::Maj6 || *quality == ChordQuality::Mi6) {
            descriptor.append("9");
        } else {
            let prefix = if k == 0 { "add" } else { "" };
            append_item(&mut descriptor, &mut open, prefix, add.to_chord_notation());
            proof {
                reveal_strlit("");
                assert(""@ =~= Seq::<char>::empty());
            }
        }
        k = k + 1;
    }
    assert(adds@.take(adds@.len() as int) =~= adds@);
    let ghost after_adds = (descriptor@, open);
    let mut k: usize = 0;
    while k < omit_list.len()
        invariant
            k <= omit_list@.len(),
            (descriptor@, open) == fold_omits(after_adds, omit_list@.map_values(|s: &str| s@).take(k as int)),
        decreases omit_list@.len() - k,
    {
        assert(omit_list@.map_values(|s: &str| s@).take(k + 1).drop_last() =~= omit_list@.map_values(|s: &str| s@).take(k as int));
        let prefix = if k == 0 { "omit" } else { "" };
        append_item(&mut descriptor, &mut open, prefix, omit_list[k]);
        proof {
            reveal_strlit("");
            assert(""@ =~= Seq::<char>::empty());
        }
        k = k + 1;
    }
    assert(omit_list@.map_values(|s: &str| s@).take(omit_list@.len() as int) =~= omit_list@.map_values(|s: &str| s@));
    if open {
        descriptor.append(")");
    }
    descriptor
}

/// The normalized descriptor of a chord from its pitch classes, intervals and quality, as
/// chord inference writes it.
pub fn normalize(pitch_set: &PitchClassSet, interval_set: &IntervalSet, quality: &ChordQuality) -> (r: String)
    ensures
        r@ == spec_describe(pitch_set@, interval_set@, *quality, true),
{
    describe(pitch_set, interval_set, quality, true)
}

} // verus!
