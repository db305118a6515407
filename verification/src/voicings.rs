//! MIDI voicings of chords.
//!
//! A voicing puts the bass (or the root) an octave below, then the guide tones (thirds,
//! fourths, altered fifths, sixths and sevenths) as low as they go from MIDI code 51 up,
//! then the other tensions as high as they go below the lead note, and the lead note last.
//! The lead note is the chord note nearest to a wanted lead, skipping notes a semitone above
//! their neighbour.
use crate::chord::interval::{spec_st, Interval};
use crate::chord::note::{regular, semitone_defined, spec_midi_code, spec_to_semitone, Note};
use crate::chord::Chord;
use vstd::prelude::*;

verus! {

/// The highest MIDI code a voicing uses.
pub const MAX_MIDI_CODE: u8 = 79;

/// The lowest MIDI code a voicing uses above its bass.
pub const MIN_MIDI_CODE: u8 = 51;

/// A chord note for voicing: its pitch class, the MIDI codes it can be played at, and its
/// interval.
#[derive(Debug, PartialEq, Eq)]
pub struct MidiNote {
    pub base: u8,
    pub available: Vec<u8>,
    pub int: Interval,
}

/// A chord note for voicing, with its codes as a sequence.
pub struct MidiNoteView {
    pub base: u8,
    pub available: Seq<u8>,
    pub int: Interval,
}

impl View for MidiNote {
    type V = MidiNoteView;

    open spec fn view(&self) -> MidiNoteView {
        MidiNoteView { base: self.base, available: self.available@, int: self.int }
    }
}

/// The codes `c`, `c + 12`, ... up to 79 that are at least 51.
pub open spec fn octaves(c: int) -> Seq<u8>
    decreases 92 - c,
{
    if c > 79 {
        Seq::empty()
    } else {
        (if c >= 51 { seq![c as u8] } else { Seq::empty() }) + octaves(c + 12)
    }
}

/// The voicing note of a chord note at an interval.
pub open spec fn note_view(n: Note, i: Interval) -> MidiNoteView {
    MidiNoteView { base: (spec_st(i) % 12) as u8, available: octaves(spec_midi_code(n)), int: i }
}

/// Whether a note has a MIDI code.
pub open spec fn playable(n: Note) -> bool {
    semitone_defined(n) && !(80 <= spec_to_semitone(n) <= 127)
}

/// The voicing notes of paired notes and intervals, as far as both go.
pub open spec fn pool_of(notes: Seq<Note>, ints: Seq<Interval>) -> Seq<MidiNoteView>
    decreases notes.len(),
{
    if notes.len() == 0 || ints.len() == 0 {
        Seq::empty()
    } else if notes.len() <= ints.len() {
        pool_of(notes.drop_last(), ints).push(note_view(notes.last(), ints[notes.len() - 1]))
    } else {
        pool_of(notes.drop_last(), ints)
    }
}

/// The notes of `p` with pitch class `b`, in order.
pub open spec fn by_base(p: Seq<MidiNoteView>, b: int) -> Seq<MidiNoteView>
    decreases p.len(),
{
    if p.len() == 0 {
        Seq::empty()
    } else {
        by_base(p.drop_last(), b) + if p.last().base == b { seq![p.last()] } else { Seq::empty() }
    }
}

/// The notes of `p` with pitch class below `b`, by pitch class, keeping their order otherwise.
pub open spec fn sort_upto(p: Seq<MidiNoteView>, b: int) -> Seq<MidiNoteView>
    decreases b,
{
    if b <= 0 {
        Seq::empty()
    } else {
        sort_upto(p, b - 1) + by_base(p, b - 1)
    }
}

/// `p` sorted by pitch class, keeping the order of notes of one pitch class.
pub open spec fn sorted_pool(p: Seq<MidiNoteView>) -> Seq<MidiNoteView> {
    sort_upto(p, 12)
}

pub open spec fn base_dist(a: u8, b: u8) -> int {
    if a >= b { a - b } else { b - a }
}

/// The intervals of the first `k` notes' successors that are a semitone above or below them
/// (cyclically), in order.
pub open spec fn blocked_upto(p: Seq<MidiNoteView>, k: int) -> Seq<Interval>
    decreases k,
{
    if k <= 0 {
        Seq::empty()
    } else {
        let i = k - 1;
        let next = p[(i + 1) % (p.len() as int)];
        blocked_upto(p, k - 1) + if base_dist(p[i].base, next.base) == 1 || base_dist(p[i].base, next.base) == 11 {
            seq![next.int]
        } else {
            Seq::empty()
        }
    }
}

/// The nearest code so far to `pl`: the distance, the interval and the code; a strictly
/// nearer code replaces it.
pub open spec fn nearest_in(pl: int, av: Seq<u8>, int_: Interval, b: (int, Interval, u8), j: int) -> (int, Interval, u8)
    decreases j,
{
    if j <= 0 {
        b
    } else {
        let prev = nearest_in(pl, av, int_, b, j - 1);
        let n = av[j - 1];
        let d = if pl >= n { pl - n } else { n - pl };
        if d < prev.0 { (d, int_, n) } else { prev }
    }
}

/// The nearest code to `pl` among the first `k` notes that are not blocked.
pub open spec fn nearest_upto(pl: int, p: Seq<MidiNoteView>, blocked: Seq<Interval>, k: int) -> (int, Interval, u8)
    decreases k,
{
    if k <= 0 {
        (255, Interval::Unison, 0u8)
    } else {
        let prev = nearest_upto(pl, p, blocked, k - 1);
        let x = p[k - 1];
        if blocked.contains(x.int) {
            prev
        } else {
            nearest_in(pl, x.available, x.int, prev, x.available.len() as int)
        }
    }
}

/// The lead note: the code nearest to `pl` among notes that are not blocked (0 when none).
pub open spec fn spec_lead(pl: int, p: Seq<MidiNoteView>) -> u8 {
    nearest_upto(pl, p, blocked_upto(p, p.len() as int), p.len() as int).2
}

/// The last of the first `k` notes that can be played at `code`.
pub open spec fn last_holding(p: Seq<MidiNoteView>, code: u8, k: int) -> Option<int>
    decreases k,
{
    if k <= 0 {
        None
    } else if p[k - 1].available.contains(code) {
        Some(k - 1)
    } else {
        last_holding(p, code, k - 1)
    }
}

/// The notes left after taking the lead: the last note holding the lead code goes.
pub open spec fn after_lead(pl: int, p: Seq<MidiNoteView>) -> Seq<MidiNoteView> {
    match last_holding(p, spec_lead(pl, p), p.len() as int) {
        Some(i) => p.remove(i),
        None => p,
    }
}

/// Guide tones: thirds, fourths, altered fifths, sixths and sevenths.
pub open spec fn is_guide(i: Interval) -> bool {
    i == Interval::MinorThird || i == Interval::MajorThird || i == Interval::PerfectFourth
        || i == Interval::AugmentedFourth || i == Interval::DiminishedFifth || i == Interval::AugmentedFifth
        || i == Interval::MajorSixth || i == Interval::DiminishedSeventh || i == Interval::MinorSeventh
        || i == Interval::MajorSeventh
}

/// Other tensions: the fifth and the ninths, elevenths and thirteenths.
pub open spec fn is_tension(i: Interval) -> bool {
    i == Interval::PerfectFifth || i == Interval::FlatNinth || i == Interval::Ninth || i == Interval::SharpNinth
        || i == Interval::Eleventh || i == Interval::SharpEleventh || i == Interval::FlatThirteenth
        || i == Interval::Thirteenth
}

/// The notes of `p` whose interval is a guide tone (`guide`) or another tension, in order.
pub open spec fn kind_of(p: Seq<MidiNoteView>, guide: bool) -> Seq<MidiNoteView>
    decreases p.len(),
{
    if p.len() == 0 {
        Seq::empty()
    } else {
        let x = p.last();
        kind_of(p.drop_last(), guide) + if (guide && is_guide(x.int)) || (!guide && is_tension(x.int)) {
            seq![x]
        } else {
            Seq::empty()
        }
    }
}

/// The notes of `p` not at interval `i`, in order.
pub open spec fn without_int(p: Seq<MidiNoteView>, i: Interval) -> Seq<MidiNoteView>
    decreases p.len(),
{
    if p.len() == 0 {
        Seq::empty()
    } else {
        without_int(p.drop_last(), i) + if p.last().int != i { seq![p.last()] } else { Seq::empty() }
    }
}

/// Whether code `n` can be picked: at least 51 for a guide tone, between 0 and `lead`
/// (excluded) for another tension.
pub open spec fn pickable(n: u8, guide: bool, lead: u8) -> bool {
    if guide { 51 <= n < 255 } else { 0 < n < lead }
}

/// Whether code `n` is better than the best so far: lower for guide tones, higher otherwise.
pub open spec fn better(n: u8, best: u8, guide: bool) -> bool {
    if guide { n < best } else { n > best }
}

/// The best code among a note's codes, and its interval.
pub open spec fn pick_in(av: Seq<u8>, int_: Interval, b: (u8, Interval), guide: bool, lead: u8, j: int) -> (u8, Interval)
    decreases j,
{
    if j <= 0 {
        b
    } else {
        let prev = pick_in(av, int_, b, guide, lead, j - 1);
        let n = av[j - 1];
        if better(n, prev.0, guide) && pickable(n, guide, lead) { (n, int_) } else { prev }
    }
}

/// The best code among the first `k` notes: the lowest guide tone from 51 up, or the highest
/// other tension below the lead.
pub open spec fn pick_upto(g: Seq<MidiNoteView>, guide: bool, lead: u8, k: int) -> (u8, Interval)
    decreases k,
{
    if k <= 0 {
        (if guide { 255u8 } else { 0u8 }, Interval::Unison)
    } else {
        let prev = pick_upto(g, guide, lead, k - 1);
        let x = g[k - 1];
        pick_in(x.available, x.int, prev, guide, lead, x.available.len() as int)
    }
}

/// Picks the best code, then drops every note at its interval, until no note is left.
pub open spec fn pick_run(g: Seq<MidiNoteView>, guide: bool, lead: u8) -> Seq<u8>
    decreases g.len(),
{
    if g.len() == 0 {
        Seq::empty()
    } else {
        let (c, i) = pick_upto(g, guide, lead, g.len() as int);
        let rest = without_int(g, i);
        if rest.len() < g.len() {
            seq![c] + pick_run(rest, guide, lead)
        } else {
            seq![c]
        }
    }
}

/// Whether a note has a code that can be picked.
pub open spec fn has_pickable(x: MidiNoteView, guide: bool, lead: u8) -> bool {
    exists|j: int| 0 <= j < x.available.len() && pickable(#[trigger] x.available[j], guide, lead)
}

/// Whether each note's interval is that of a note with a code that can be picked, so that
/// every round drops a note.
pub open spec fn runs_out(g: Seq<MidiNoteView>, guide: bool, lead: u8) -> bool {
    forall|x: MidiNoteView|
        #[trigger] g.contains(x) ==> exists|y: MidiNoteView| g.contains(y) && y.int == x.int && has_pickable(y, guide, lead)
}

/// The lead note a wanted lead gives: 79 when none, and at least 65.
pub open spec fn wanted_lead(lead_note: Option<u8>) -> int {
    let l = match lead_note {
        Some(l) => l as int,
        None => 79,
    };
    if l < 65 { 65 } else { l }
}

/// The voicing notes of a chord, sorted by pitch class.
pub open spec fn chord_pool(ch: Chord) -> Seq<MidiNoteView> {
    sorted_pool(pool_of(ch.notes@, ch.intervals@))
}

/// The codes below the voicing: the bass and then the root when the chord has a bass, the root
/// an octave lower otherwise.
pub open spec fn voicing_head(ch: Chord) -> Seq<u8> {
    match ch.bass {
        Some(b) => seq![(spec_midi_code(b) - 12) as u8, spec_midi_code(ch.root) as u8],
        None => seq![(spec_midi_code(ch.root) - 12) as u8],
    }
}

/// The voicing of a chord around a wanted lead note.
pub open spec fn spec_voicing(ch: Chord, lead_note: Option<u8>) -> Seq<u8> {
    let pl = wanted_lead(lead_note);
    let p = chord_pool(ch);
    let lead = spec_lead(pl, p);
    let rest = after_lead(pl, p);
    voicing_head(ch) + pick_run(kind_of(rest, true), true, 255) + pick_run(kind_of(rest, false), false, lead) + seq![lead]
}

/// Whether a chord can be voiced: its notes, root and bass have MIDI codes, the root and bass
/// codes are at least 12, and each round of guide tones and tensions drops a note.
pub open spec fn voiceable(ch: Chord, lead_note: Option<u8>) -> bool {
    let pl = wanted_lead(lead_note);
    let p = chord_pool(ch);
    let rest = after_lead(pl, p);
    &&& forall|k: int| 0 <= k < ch.notes@.len() ==> playable(#[trigger] ch.notes@[k])
    &&& playable(ch.root) && spec_midi_code(ch.root) >= 12
    &&& (ch.bass matches Some(b) ==> playable(b) && spec_midi_code(b) >= 12)
    &&& runs_out(kind_of(rest, true), true, 255)
    &&& runs_out(kind_of(rest, false), false, spec_lead(pl, p))
}

/// The views of the notes of a pool.
pub open spec fn views(p: Seq<MidiNote>) -> Seq<MidiNoteView> {
    p.map_values(|m: MidiNote| m@)
}

/// The views of the notes of a pool at the given indices.
pub open spec fn views_at(p: Seq<MidiNote>, idx: Seq<usize>) -> Seq<MidiNoteView> {
    idx.map_values(|k: usize| p[k as int]@)
}

impl MidiNote {
    /// The voicing note of `note` at `interval`: its codes are the octaves of the note's
    /// MIDI code from 51 up to 79.
    pub fn new(note: &Note, interval: Interval) -> (r: MidiNote)
        requires
            playable(*note),
        ensures
            r@ == note_view(*note, interval),
    {
        let mut candidates: Vec<u8> = Vec::new();
        let mut candidate = note.to_midi_code();
        let ghost start = candidate as int;
        assert(candidates@ + octaves(start) =~= octaves(start));
        while candidate <= MAX_MIDI_CODE
            invariant
                candidates@ + octaves(candidate as int) == octaves(start),
            decreases 92 - candidate,
        {
            if candidate >= MIN_MIDI_CODE {
                candidates.push(candidate);
            }
            assert(candidates@ + octaves(candidate + 12) =~= octaves(start));
            candidate = candidate + 12;
        }
        assert(candidates@ =~= octaves(start));
        MidiNote { base: interval.st() % 12, int: interval, available: candidates }
    }

    /// A copy of the note.
    fn duplicate(&self) -> (r: MidiNote)
        ensures
            r@ == self@,
    {
        let mut available: Vec<u8> = Vec::new();
        let mut k: usize = 0;
        while k < self.available.len()
            invariant
                k <= self.available@.len(),
                available@ == self.available@.take(k as int),
            decreases self.available@.len() - k,
        {
            available.push(self.available[k]);
            assert(available@ =~= self.available@.take(k + 1));
            k = k + 1;
        }
        assert(available@ =~= self.available@);
        MidiNote { base: self.base, available, int: self.int }
    }
}

/// The voicing notes of a chord's notes and intervals.
fn notes_pool(ch: &Chord) -> (r: Vec<MidiNote>)
    requires
        forall|k: int| 0 <= k < ch.notes@.len() ==> playable(#[trigger] ch.notes@[k]),
    ensures
        views(r@) == pool_of(ch.notes@, ch.intervals@),
{
    let n = if ch.notes.len() <= ch.intervals.len() { ch.notes.len() } else { ch.intervals.len() };
    let mut midi_notes: Vec<MidiNote> = Vec::new();
    let mut k: usize = 0;
    while k < n
        invariant
            k <= n,
            n <= ch.notes@.len(),
            n <= ch.intervals@.len(),
            n == ch.notes@.len() || n == ch.intervals@.len(),
            forall|j: int| 0 <= j < ch.notes@.len() ==> playable(#[trigger] ch.notes@[j]),
            views(midi_notes@) == pool_of(ch.notes@.take(k as int), ch.intervals@),
        decreases n - k,
    {
        let m = MidiNote::new(&ch.notes[k], ch.intervals[k]);
        proof {
            let t = ch.notes@.take(k + 1);
            assert(t.drop_last() =~= ch.notes@.take(k as int));
            assert(t.last() == ch.notes@[k as int]);
        }
        midi_notes.push(m);
        assert(views(midi_notes@) =~= pool_of(ch.notes@.take(k as int), ch.intervals@).push(m@));
        k = k + 1;
    }
    proof {
        lemma_pool_of_tail(ch.notes@, ch.intervals@, n as int);
    }
    midi_notes
}

/// Notes beyond the intervals add nothing to the pool.
proof fn lemma_pool_of_tail(notes: Seq<Note>, ints: Seq<Interval>, n: int)
    requires
        0 <= n <= notes.len(),
        n == notes.len() || n == ints.len(),
        n <= ints.len(),
    ensures
        pool_of(notes, ints) == pool_of(notes.take(n), ints),
    decreases notes.len() - n,
{
    if n < notes.len() {
        assert(notes.take(n + 1).drop_last() =~= notes.take(n));
        assert(pool_of(notes.take(n + 1), ints) == pool_of(notes.take(n), ints));
        lemma_pool_of_extend(notes, ints, n + 1);
    } else {
        assert(notes.take(n) =~= notes);
    }
}

proof fn lemma_pool_of_extend(notes: Seq<Note>, ints: Seq<Interval>, m: int)
    requires
        ints.len() < m <= notes.len(),
    ensures
        pool_of(notes, ints) == pool_of(notes.take(m), ints),
    decreases notes.len() - m,
{
    if m < notes.len() {
        assert(notes.take(m + 1).drop_last() =~= notes.take(m));
        lemma_pool_of_extend(notes, ints, m + 1);
    } else {
        assert(notes.take(m) =~= notes);
    }
}

/// Sorts a pool by pitch class, keeping the order of notes of one pitch class.
fn sort_pool(pool: &Vec<MidiNote>) -> (r: Vec<MidiNote>)
    ensures
        views(r@) == sorted_pool(views(pool@)),
{
    let ghost p = views(pool@);
    let mut out: Vec<MidiNote> = Vec::new();
    let mut b: u8 = 0;
    while b < 12
        invariant
            b <= 12,
            p == views(pool@),
            views(out@) == sort_upto(p, b as int),
        decreases 12 - b,
    {
        let ghost before = views(out@);
        let mut k: usize = 0;
        while k < pool.len()
            invariant
                b < 12,
                k <= pool@.len(),
                p == views(pool@),
                views(out@) == before + by_base(p.take(k as int), b as int),
            decreases pool@.len() - k,
        {
            assert(p.take(k + 1).drop_last() =~= p.take(k as int));
            assert(p.take(k + 1).last() == pool@[k as int]@);
            if pool[k].base == b {
                let m = pool[k].duplicate();
                let ghost prev_out = out@;
                out.push(m);
                assert(views(out@) =~= views(prev_out).push(m@));
                assert(views(out@) =~= before + by_base(p.take(k + 1), b as int));
            } else {
                assert(views(out@) =~= before + by_base(p.take(k + 1), b as int));
            }
            k = k + 1;
        }
        assert(p.take(pool@.len() as int) =~= p);
        b = b + 1;
    }
    out
}

/// Whether `x` is in `s`.
fn has_code(s: &Vec<u8>, x: u8) -> (r: bool)
    ensures
        r == s@.contains(x),
{
    let mut k: usize = 0;
    while k < s.len()
        invariant
            k <= s@.len(),
            forall|j: int| 0 <= j < k ==> s@[j] != x,
        decreases s@.len() - k,
    {
        if s[k] == x {
            assert(s@[k as int] == x);
            return true;
        }
        k = k + 1;
    }
    false
}

/// Whether interval `x` is in `s`.
fn has_interval(s: &Vec<Interval>, x: Interval) -> (r: bool)
    ensures
        r == s@.contains(x),
{
    let mut k: usize = 0;
    while k < s.len()
        invariant
            k <= s@.len(),
            forall|j: int| 0 <= j < k ==> s@[j] != x,
        decreases s@.len() - k,
    {
        if s[k] == x {
            assert(s@[k as int] == x);
            return true;
        }
        k = k + 1;
    }
    false
}

/// Takes the lead note out of the pool: the code nearest to `pl` among notes that are not a
/// semitone above their neighbour; the last note holding it leaves the pool.
fn nearest_lead(pl: u8, pool: &mut Vec<MidiNote>) -> (r: u8)
    ensures
        r == spec_lead(pl as int, views(old(pool)@)),
        views(final(pool)@) == after_lead(pl as int, views(old(pool)@)),
{
    let ghost p = views(pool@);
    let n = pool.len();
    let mut not_allowed: Vec<Interval> = Vec::new();
    let mut i: usize = 0;
    while i < n
        invariant
            n == pool@.len(),
            i <= n,
            p == views(pool@),
            not_allowed@ == blocked_upto(p, i as int),
        decreases n - i,
    {
        let next_index = (i + 1) % n;
        let a = pool[i].base;
        let b = pool[next_index].base;
        let dist = if a >= b { a - b } else { b - a };
        if dist == 1 || dist == 11 {
            not_allowed.push(pool[next_index].int);
        }
        assert(not_allowed@ =~= blocked_upto(p, i + 1));
        i = i + 1;
    }
    let mut best_dist: u8 = 255;
    let mut best_int = Interval::Unison;
    let mut best_code: u8 = 0;
    let mut i: usize = 0;
    while i < n
        invariant
            n == pool@.len(),
            i <= n,
            p == views(pool@),
            not_allowed@ == blocked_upto(p, n as int),
            (best_dist as int, best_int, best_code) == nearest_upto(pl as int, p, not_allowed@, i as int),
        decreases n - i,
    {
        if !has_interval(&not_allowed, pool[i].int) {
            let ghost start = (best_dist as int, best_int, best_code);
            let m = &pool[i];
            let mut j: usize = 0;
            while j < m.available.len()
                invariant
                    j <= m.available@.len(),
                    (best_dist as int, best_int, best_code) == nearest_in(pl as int, m.available@, m.int, start, j as int),
                decreases m.available@.len() - j,
            {
                let code = m.available[j];
                let d: u8 = if pl >= code { pl - code } else { code - pl };
                if d < best_dist {
                    best_dist = d;
                    best_int = m.int;
                    best_code = code;
                }
                j = j + 1;
            }
        }
        i = i + 1;
    }
    let mut found: Option<usize> = None;
    let mut i: usize = 0;
    while i < n
        invariant
            n == pool@.len(),
            i <= n,
            p == views(pool@),
            found matches Some(f) ==> f < n,
            (match found {
                Some(f) => Some(f as int),
                None => None::<int>,
            }) == last_holding(p, best_code, i as int),
        decreases n - i,
    {
        if has_code(&pool[i].available, best_code) {
            found = Some(i);
        }
        i = i + 1;
    }
    match found {
        Some(f) => {
            pool.remove(f);
            assert(views(pool@) =~= p.remove(f as int));
        },
        None => {},
    }
    best_code
}

/// The indices of the notes of a pool of one kind (guide tones or other tensions).
fn kind_indices(pool: &Vec<MidiNote>, guide: bool) -> (r: Vec<usize>)
    ensures
        views_at(pool@, r@) == kind_of(views(pool@), guide),
        forall|k: int| 0 <= k < r@.len() ==> #[trigger] r@[k] < pool@.len(),
{
    let ghost p = views(pool@);
    let mut r: Vec<usize> = Vec::new();
    let mut k: usize = 0;
    while k < pool.len()
        invariant
            k <= pool@.len(),
            p == views(pool@),
            views_at(pool@, r@) == kind_of(p.take(k as int), guide),
            forall|j: int| 0 <= j < r@.len() ==> #[trigger] r@[j] < pool@.len(),
        decreases pool@.len() - k,
    {
        assert(p.take(k + 1).drop_last() =~= p.take(k as int));
        assert(p.take(k + 1).last() == pool@[k as int]@);
        let i = pool[k].int;
        let wanted = if guide { is_guide_interval(i) } else { is_tension_interval(i) };
        if wanted {
            r.push(k);
        }
        assert(views_at(pool@, r@) =~= kind_of(p.take(k + 1), guide));
        k = k + 1;
    }
    assert(p.take(pool@.len() as int) =~= p);
    r
}

fn is_guide_interval(i: Interval) -> (r: bool)
    ensures
        r == is_guide(i),
{
    match i {
        Interval::MinorThird | Interval::MajorThird | Interval::PerfectFourth | Interval::AugmentedFourth
        | Interval::DiminishedFifth | Interval::AugmentedFifth | Interval::MajorSixth | Interval::DiminishedSeventh
        | Interval::MinorSeventh | Interval::MajorSeventh => true,
        _ => false,
    }
}

fn is_tension_interval(i: Interval) -> (r: bool)
    ensures
        r == is_tension(i),
{
    match i {
        Interval::PerfectFifth | Interval::FlatNinth | Interval::Ninth | Interval::SharpNinth | Interval::Eleventh
        | Interval::SharpEleventh | Interval::FlatThirteenth | Interval::Thirteenth => true,
        _ => false,
    }
}

/// The best code among the notes at the given indices, and its interval.
fn pick(pool: &Vec<MidiNote>, idx: &Vec<usize>, guide: bool, lead: u8) -> (r: (u8, Interval))
    requires
        forall|k: int| 0 <= k < idx@.len() ==> #[trigger] idx@[k] < pool@.len(),
    ensures
        r == pick_upto(views_at(pool@, idx@), guide, lead, idx@.len() as int),
{
    let ghost g = views_at(pool@, idx@);
    let mut best: u8 = if guide { 255 } else { 0 };
    let mut best_int = Interval::Unison;
    let mut t: usize = 0;
    while t < idx.len()
        invariant
            t <= idx@.len(),
            g == views_at(pool@, idx@),
            forall|k: int| 0 <= k < idx@.len() ==> #[trigger] idx@[k] < pool@.len(),
            (best, best_int) == pick_upto(g, guide, lead, t as int),
        decreases idx@.len() - t,
    {
        let m = &pool[idx[t]];
        let ghost start = (best, best_int);
        let mut j: usize = 0;
        while j < m.available.len()
            invariant
                j <= m.available@.len(),
                (best, best_int) == pick_in(m.available@, m.int, start, guide, lead, j as int),
            decreases m.available@.len() - j,
        {
            let n = m.available[j];
            let is_better = if guide { n < best } else { n > best };
            let ok = if guide { 51 <= n && n < 255 } else { 0 < n && n < lead };
            if is_better && ok {
                best = n;
                best_int = m.int;
            }
            j = j + 1;
        }
        t = t + 1;
    }
    (best, best_int)
}

/// The indices among `idx` of notes not at interval `i`.
fn drop_interval(pool: &Vec<MidiNote>, idx: &Vec<usize>, i: Interval) -> (r: Vec<usize>)
    requires
        forall|k: int| 0 <= k < idx@.len() ==> #[trigger] idx@[k] < pool@.len(),
    ensures
        views_at(pool@, r@) == without_int(views_at(pool@, idx@), i),
        forall|k: int| 0 <= k < r@.len() ==> #[trigger] r@[k] < pool@.len(),
{
    let ghost g = views_at(pool@, idx@);
    let mut r: Vec<usize> = Vec::new();
    let mut t: usize = 0;
    while t < idx.len()
        invariant
            t <= idx@.len(),
            g == views_at(pool@, idx@),
            forall|k: int| 0 <= k < idx@.len() ==> #[trigger] idx@[k] < pool@.len(),
            forall|k: int| 0 <= k < r@.len() ==> #[trigger] r@[k] < pool@.len(),
            views_at(pool@, r@) == without_int(g.take(t as int), i),
        decreases idx@.len() - t,
    {
        assert(g.take(t + 1).drop_last() =~= g.take(t as int));
        assert(g.take(t + 1).last() == pool@[idx@[t as int] as int]@);
        if pool[idx[t]].int != i {
            r.push(idx[t]);
        }
        assert(views_at(pool@, r@) =~= without_int(g.take(t + 1), i));
        t = t + 1;
    }
    assert(g.take(idx@.len() as int) =~= g);
    r
}

/// Appends the picks of a kind of notes, round by round, until none is left.
fn pick_all(pool: &Vec<MidiNote>, v: &mut Vec<u8>, guide: bool, lead: u8)
    requires
        runs_out(kind_of(views(pool@), guide), guide, lead),
    ensures
        final(v)@ == old(v)@ + pick_run(kind_of(views(pool@), guide), guide, lead),
{
    let mut idx = kind_indices(pool, guide);
    while idx.len() > 0
        invariant
            forall|k: int| 0 <= k < idx@.len() ==> #[trigger] idx@[k] < pool@.len(),
            runs_out(views_at(pool@, idx@), guide, lead),
            v@ + pick_run(views_at(pool@, idx@), guide, lead) == old(v)@ + pick_run(kind_of(views(pool@), guide), guide, lead),
        decreases idx@.len(),
    {
        let ghost g = views_at(pool@, idx@);
        let (code, i) = pick(pool, &idx, guide, lead);
        proof {
            lemma_pick_progress(g, guide, lead);
        }
        let rest = drop_interval(pool, &idx, i);
        proof {
            lemma_without_shorter(g, i);
            lemma_runs_out_without(g, i, guide, lead);
        }
        v.push(code);
        assert(v@ + pick_run(views_at(pool@, rest@), guide, lead) =~= old(v)@ + pick_run(
            kind_of(views(pool@), guide),
            guide,
            lead,
        ));
        idx = rest;
    }
    assert(v@ =~= old(v)@ + pick_run(kind_of(views(pool@), guide), guide, lead));
}

/// Sets the guide tones: thirds, fourths, altered fifths, sixths and sevenths, each as low as it
/// goes from 51 up.
fn guide_notes(pool: &Vec<MidiNote>, v: &mut Vec<u8>)
    requires
        runs_out(kind_of(views(pool@), true), true, 255),
    ensures
        final(v)@ == old(v)@ + pick_run(kind_of(views(pool@), true), true, 255),
{
    pick_all(pool, v, true, 255);
}

/// Sets the other tensions, the perfect fifth included and the root excluded, each as high as it
/// goes below the lead.
fn non_guide(pool: &Vec<MidiNote>, v: &mut Vec<u8>, lead: u8)
    requires
        runs_out(kind_of(views(pool@), false), false, lead),
    ensures
        final(v)@ == old(v)@ + pick_run(kind_of(views(pool@), false), false, lead),
{
    pick_all(pool, v, false, lead);
}

/// A voicing of a chord, as MIDI codes: the bass part, the guide tones, the other tensions and
/// the lead note. The lead is the chord note nearest to `lead_note` (79 when none, and at least
/// 65).
pub fn midi_codes_voicing(ch: &Chord, lead_note: Option<u8>) -> (r: Vec<u8>)
    requires
        voiceable(*ch, lead_note),
    ensures
        r@ == spec_voicing(*ch, lead_note),
        regular(ch.root) && (ch.bass matches Some(b) ==> regular(b)) ==> {
            &&& forall|i: int| 0 <= i < r@.len() - 1 ==> 36 <= #[trigger] r@[i] <= 79
            &&& (r@.last() == 0 || 51 <= r@.last() <= 79)
        },
{
    let mut prev_lead = match lead_note {
        Some(l) => l,
        None => MAX_MIDI_CODE,
    };
    if prev_lead < 65 {
        prev_lead = 65;
    }
    let mut res: Vec<u8> = Vec::new();
    let unsorted = notes_pool(ch);
    let mut pool = sort_pool(&unsorted);
    match ch.bass {
        Some(b) => {
            res.push(b.to_midi_code() - 12);
            res.push(ch.root.to_midi_code());
        },
        None => {
            res.push(ch.root.to_midi_code() - 12);
        },
    }
    assert(res@ =~= voicing_head(*ch));
    let lead = nearest_lead(prev_lead, &mut pool);
    guide_notes(&pool, &mut res);
    non_guide(&pool, &mut res, lead);
    res.push(lead);
    proof {
        if regular(ch.root) && (ch.bass matches Some(b) ==> regular(b)) {
            lemma_voicing_range(*ch, lead_note);
            assert forall|i: int| 0 <= i < res@.len() - 1 implies 36 <= #[trigger] res@[i] <= 79 by {
                assert(res@[i] == spec_voicing(*ch, lead_note)[i]);
            }
        }
    }
    res
}

/// The pick of a kind of notes, when one of them has a code that can be picked, is the
/// interval of one of them.
proof fn lemma_pick_progress(g: Seq<MidiNoteView>, guide: bool, lead: u8)
    requires
        g.len() > 0,
        runs_out(g, guide, lead),
    ensures
        exists|b: int| 0 <= b < g.len() && g[b].int == #[trigger] pick_upto(g, guide, lead, g.len() as int).1,
{
    assert(g.contains(g[0]));
    let y = choose|y: MidiNoteView| g.contains(y) && y.int == g[0].int && has_pickable(y, guide, lead);
    let b = choose|b: int| 0 <= b < g.len() && g[b] == y;
    lemma_pick_upto(g, guide, lead, g.len() as int, b);
}

proof fn lemma_pick_upto(g: Seq<MidiNoteView>, guide: bool, lead: u8, k: int, b: int)
    requires
        0 <= b < k <= g.len(),
        has_pickable(g[b], guide, lead),
    ensures
        exists|c: int| 0 <= c < k && g[c].int == #[trigger] pick_upto(g, guide, lead, k).1,
        pickable(pick_upto(g, guide, lead, k).0, guide, lead),
    decreases k,
{
    let x = g[k - 1];
    let prev = pick_upto(g, guide, lead, k - 1);
    let cur = pick_upto(g, guide, lead, k);
    lemma_pick_in_shape(x.available, x.int, prev, guide, lead, x.available.len() as int);
    if b < k - 1 {
        lemma_pick_upto(g, guide, lead, k - 1, b);
        let c0 = choose|c: int| 0 <= c < k - 1 && g[c].int == #[trigger] prev.1;
        if cur == prev {
            assert(g[c0].int == cur.1);
        } else {
            assert(g[k - 1].int == cur.1);
        }
    } else {
        let j = choose|j: int| 0 <= j < x.available.len() && pickable(#[trigger] x.available[j], guide, lead);
        lemma_pick_upto_start(g, guide, lead, k - 1);
        if prev == (if guide { 255u8 } else { 0u8 }, Interval::Unison) {
            lemma_pick_in_finds(x.available, x.int, prev, guide, lead, x.available.len() as int, j);
            assert(g[k - 1].int == cur.1);
        } else {
            let c0 = choose|c: int| 0 <= c < k - 1 && g[c].int == #[trigger] prev.1 && pickable(prev.0, guide, lead);
            if cur == prev {
                assert(g[c0].int == cur.1);
            } else {
                assert(g[k - 1].int == cur.1);
            }
        }
    }
}

/// Either nothing was picked among the first `k` notes, or the pick is a code that can be
/// picked, at the interval of one of them.
proof fn lemma_pick_upto_start(g: Seq<MidiNoteView>, guide: bool, lead: u8, k: int)
    requires
        0 <= k <= g.len(),
    ensures
        pick_upto(g, guide, lead, k) == (if guide { 255u8 } else { 0u8 }, Interval::Unison) || (exists|c: int|
            0 <= c < k && g[c].int == #[trigger] pick_upto(g, guide, lead, k).1 && pickable(
                pick_upto(g, guide, lead, k).0,
                guide,
                lead,
            )),
    decreases k,
{
    if k > 0 {
        lemma_pick_upto_start(g, guide, lead, k - 1);
        let x = g[k - 1];
        let prev = pick_upto(g, guide, lead, k - 1);
        lemma_pick_in_shape(x.available, x.int, prev, guide, lead, x.available.len() as int);
        if pick_upto(g, guide, lead, k) != prev {
            assert(g[k - 1].int == x.int);
        } else if prev != (if guide { 255u8 } else { 0u8 }, Interval::Unison) {
            let c0 = choose|c: int| 0 <= c < k - 1 && g[c].int == #[trigger] prev.1 && pickable(prev.0, guide, lead);
            assert(g[c0].int == prev.1);
        }
    }
}

/// A pick over one note's codes is the earlier pick, or one of its codes that can be picked.
proof fn lemma_pick_in_shape(av: Seq<u8>, int_: Interval, b: (u8, Interval), guide: bool, lead: u8, j: int)
    requires
        0 <= j <= av.len(),
    ensures
        pick_in(av, int_, b, guide, lead, j) == b || (pick_in(av, int_, b, guide, lead, j).1 == int_ && pickable(
            pick_in(av, int_, b, guide, lead, j).0,
            guide,
            lead,
        )),
    decreases j,
{
    if j > 0 {
        lemma_pick_in_shape(av, int_, b, guide, lead, j - 1);
    }
}

/// A pick over one note's codes, from nothing picked, finds one of its codes that can be picked.
proof fn lemma_pick_in_finds(av: Seq<u8>, int_: Interval, b: (u8, Interval), guide: bool, lead: u8, j: int, w: int)
    requires
        0 <= w < j <= av.len(),
        pickable(av[w], guide, lead),
        b == (if guide { 255u8 } else { 0u8 }, Interval::Unison),
    ensures
        pick_in(av, int_, b, guide, lead, j).1 == int_,
        pickable(pick_in(av, int_, b, guide, lead, j).0, guide, lead),
    decreases j,
{
    if w < j - 1 {
        lemma_pick_in_finds(av, int_, b, guide, lead, j - 1, w);
    } else {
        lemma_pick_in_shape(av, int_, b, guide, lead, j - 1);
    }
}

/// Dropping the notes at an interval one of them has leaves fewer notes.
proof fn lemma_without_shorter(g: Seq<MidiNoteView>, i: Interval)
    ensures
        without_int(g, i).len() <= g.len(),
        (exists|b: int| 0 <= b < g.len() && g[b].int == i) ==> without_int(g, i).len() < g.len(),
    decreases g.len(),
{
    if g.len() > 0 {
        lemma_without_shorter(g.drop_last(), i);
        if exists|b: int| 0 <= b < g.len() && g[b].int == i {
            let b = choose|b: int| 0 <= b < g.len() && g[b].int == i;
            if b < g.len() - 1 {
                assert(g.drop_last()[b].int == i);
            }
        }
    }
}

/// A note is left after dropping an interval exactly when it was there at another interval.
proof fn lemma_without_contains(g: Seq<MidiNoteView>, i: Interval, x: MidiNoteView)
    ensures
        without_int(g, i).contains(x) <==> g.contains(x) && x.int != i,
    decreases g.len(),
{
    if g.len() > 0 {
        lemma_without_contains(g.drop_last(), i, x);
        let w = without_int(g.drop_last(), i);
        if g.drop_last().contains(x) {
            let k = choose|k: int| 0 <= k < g.drop_last().len() && g.drop_last()[k] == x;
            assert(g[k] == x);
        }
        if g.contains(x) && x != g.last() {
            let k = choose|k: int| 0 <= k < g.len() && g[k] == x;
            assert(k < g.len() - 1);
            assert(g.drop_last()[k] == x);
        }
        if g.last().int != i {
            assert(without_int(g, i) == w.push(g.last()));
            if w.push(g.last()).contains(x) && x != g.last() {
                let k = choose|k: int| 0 <= k < w.push(g.last()).len() && w.push(g.last())[k] == x;
                assert(w[k] == x);
            }
            if w.contains(x) {
                let k = choose|k: int| 0 <= k < w.len() && w[k] == x;
                assert(w.push(g.last())[k] == x);
            }
            if x == g.last() {
                assert(w.push(g.last())[w.len() as int] == x);
                assert(g[g.len() - 1] == x);
            }
        } else {
            assert(without_int(g, i) =~= w);
            if x == g.last() {
                assert(g[g.len() - 1] == x);
            }
        }
    }
}

/// Every round keeps the notes that are left able to run out.
proof fn lemma_runs_out_without(g: Seq<MidiNoteView>, i: Interval, guide: bool, lead: u8)
    requires
        runs_out(g, guide, lead),
    ensures
        runs_out(without_int(g, i), guide, lead),
{
    let r = without_int(g, i);
    assert forall|x: MidiNoteView| #[trigger] r.contains(x) implies exists|y: MidiNoteView|
        r.contains(y) && y.int == x.int && has_pickable(y, guide, lead) by {
        lemma_without_contains(g, i, x);
        let y = choose|y: MidiNoteView| g.contains(y) && y.int == x.int && has_pickable(y, guide, lead);
        lemma_without_contains(g, i, y);
    }
}

/// Whether every code of a voicing note lies between 51 and 79.
pub open spec fn note_in_range(x: MidiNoteView) -> bool {
    forall|j: int| 0 <= j < x.available.len() ==> 51 <= #[trigger] x.available[j] <= 79
}

/// Whether every note of `p` has its codes between 51 and 79.
pub open spec fn all_in_range(p: Seq<MidiNoteView>) -> bool {
    forall|k: int| 0 <= k < p.len() ==> note_in_range(#[trigger] p[k])
}

proof fn lemma_octaves_in_range(c: int)
    ensures
        forall|j: int| 0 <= j < octaves(c).len() ==> 51 <= #[trigger] octaves(c)[j] <= 79,
    decreases 92 - c,
{
    if c <= 79 {
        lemma_octaves_in_range(c + 12);
        let head: Seq<u8> = if c >= 51 { seq![c as u8] } else { Seq::empty() };
        assert forall|j: int| 0 <= j < octaves(c).len() implies 51 <= #[trigger] octaves(c)[j] <= 79 by {
            if j >= head.len() {
                assert(octaves(c)[j] == octaves(c + 12)[j - head.len()]);
            }
        }
    }
}

proof fn lemma_pool_in_range(notes: Seq<Note>, ints: Seq<Interval>)
    ensures
        all_in_range(pool_of(notes, ints)),
    decreases notes.len(),
{
    if notes.len() > 0 && ints.len() > 0 {
        lemma_pool_in_range(notes.drop_last(), ints);
        if notes.len() <= ints.len() {
            let x = note_view(notes.last(), ints[notes.len() - 1]);
            lemma_octaves_in_range(spec_midi_code(notes.last()));
            assert(note_in_range(x));
            let q = pool_of(notes.drop_last(), ints);
            assert forall|k: int| 0 <= k < q.push(x).len() implies note_in_range(#[trigger] q.push(x)[k]) by {
                if k < q.len() {
                    assert(q.push(x)[k] == q[k]);
                }
            }
        }
    }
}

proof fn lemma_by_base_in_range(p: Seq<MidiNoteView>, b: int)
    requires
        all_in_range(p),
    ensures
        all_in_range(by_base(p, b)),
    decreases p.len(),
{
    if p.len() > 0 {
        lemma_by_base_in_range(p.drop_last(), b);
        let q = by_base(p.drop_last(), b);
        let t: Seq<MidiNoteView> = if p.last().base == b { seq![p.last()] } else { Seq::empty() };
        assert(note_in_range(p[p.len() - 1]));
        assert forall|k: int| 0 <= k < (q + t).len() implies note_in_range(#[trigger] (q + t)[k]) by {
            if k < q.len() {
                assert((q + t)[k] == q[k]);
            } else {
                assert((q + t)[k] == p.last());
            }
        }
    }
}

proof fn lemma_sort_in_range(p: Seq<MidiNoteView>, b: int)
    requires
        all_in_range(p),
    ensures
        all_in_range(sort_upto(p, b)),
    decreases b,
{
    if b > 0 {
        lemma_sort_in_range(p, b - 1);
        lemma_by_base_in_range(p, b - 1);
        let q = sort_upto(p, b - 1);
        let t = by_base(p, b - 1);
        assert forall|k: int| 0 <= k < (q + t).len() implies note_in_range(#[trigger] (q + t)[k]) by {
            if k < q.len() {
                assert((q + t)[k] == q[k]);
            } else {
                assert((q + t)[k] == t[k - q.len()]);
            }
        }
    }
}

proof fn lemma_kind_in_range(p: Seq<MidiNoteView>, guide: bool)
    requires
        all_in_range(p),
    ensures
        all_in_range(kind_of(p, guide)),
    decreases p.len(),
{
    if p.len() > 0 {
        lemma_kind_in_range(p.drop_last(), guide);
        let x = p.last();
        let q = kind_of(p.drop_last(), guide);
        let t: Seq<MidiNoteView> = if (guide && is_guide(x.int)) || (!guide && is_tension(x.int)) {
            seq![x]
        } else {
            Seq::empty()
        };
        assert(note_in_range(p[p.len() - 1]));
        assert forall|k: int| 0 <= k < (q + t).len() implies note_in_range(#[trigger] (q + t)[k]) by {
            if k < q.len() {
                assert((q + t)[k] == q[k]);
            } else {
                assert((q + t)[k] == x);
            }
        }
    }
}

proof fn lemma_without_in_range(p: Seq<MidiNoteView>, i: Interval)
    requires
        all_in_range(p),
    ensures
        all_in_range(without_int(p, i)),
    decreases p.len(),
{
    if p.len() > 0 {
        lemma_without_in_range(p.drop_last(), i);
        let x = p.last();
        let q = without_int(p.drop_last(), i);
        let t: Seq<MidiNoteView> = if x.int != i { seq![x] } else { Seq::empty() };
        assert(note_in_range(p[p.len() - 1]));
        assert forall|k: int| 0 <= k < (q + t).len() implies note_in_range(#[trigger] (q + t)[k]) by {
            if k < q.len() {
                assert((q + t)[k] == q[k]);
            } else {
                assert((q + t)[k] == x);
            }
        }
    }
}

proof fn lemma_pick_in_range(av: Seq<u8>, int_: Interval, b: (u8, Interval), guide: bool, lead: u8, j: int)
    requires
        0 <= j <= av.len(),
        forall|k: int| 0 <= k < av.len() ==> 51 <= #[trigger] av[k] <= 79,
    ensures
        pick_in(av, int_, b, guide, lead, j) == b || 51 <= pick_in(av, int_, b, guide, lead, j).0 <= 79,
    decreases j,
{
    if j > 0 {
        lemma_pick_in_range(av, int_, b, guide, lead, j - 1);
        assert(51 <= av[j - 1] <= 79);
    }
}

proof fn lemma_pick_upto_in_range(g: Seq<MidiNoteView>, guide: bool, lead: u8, k: int)
    requires
        0 <= k <= g.len(),
        all_in_range(g),
    ensures
        pick_upto(g, guide, lead, k).0 == (if guide { 255u8 } else { 0u8 }) || 51 <= pick_upto(g, guide, lead, k).0 <= 79,
    decreases k,
{
    if k > 0 {
        lemma_pick_upto_in_range(g, guide, lead, k - 1);
        let x = g[k - 1];
        assert(note_in_range(x));
        lemma_pick_in_range(x.available, x.int, pick_upto(g, guide, lead, k - 1), guide, lead, x.available.len() as int);
    }
}

proof fn lemma_pick_run_in_range(g: Seq<MidiNoteView>, guide: bool, lead: u8)
    requires
        all_in_range(g),
        runs_out(g, guide, lead),
    ensures
        forall|i: int| 0 <= i < pick_run(g, guide, lead).len() ==> 51 <= #[trigger] pick_run(g, guide, lead)[i] <= 79,
    decreases g.len(),
{
    if g.len() > 0 {
        let (c, iv) = pick_upto(g, guide, lead, g.len() as int);
        lemma_pick_upto_in_range(g, guide, lead, g.len() as int);
        assert(g.contains(g[0]));
        let y = choose|y: MidiNoteView| g.contains(y) && y.int == g[0].int && has_pickable(y, guide, lead);
        let b = choose|b: int| 0 <= b < g.len() && g[b] == y;
        lemma_pick_upto(g, guide, lead, g.len() as int, b);
        let rest = without_int(g, iv);
        if rest.len() < g.len() {
            lemma_without_in_range(g, iv);
            lemma_runs_out_without(g, iv, guide, lead);
            lemma_pick_run_in_range(rest, guide, lead);
            let r = pick_run(g, guide, lead);
            assert(r == seq![c] + pick_run(rest, guide, lead));
            assert forall|i: int| 0 <= i < r.len() implies 51 <= #[trigger] r[i] <= 79 by {
                if i > 0 {
                    assert(r[i] == pick_run(rest, guide, lead)[i - 1]);
                }
            }
        }
    }
}

proof fn lemma_nearest_in_range(pl: int, av: Seq<u8>, int_: Interval, b: (int, Interval, u8), j: int)
    requires
        0 <= j <= av.len(),
        forall|k: int| 0 <= k < av.len() ==> 51 <= #[trigger] av[k] <= 79,
    ensures
        nearest_in(pl, av, int_, b, j) == b || 51 <= nearest_in(pl, av, int_, b, j).2 <= 79,
    decreases j,
{
    if j > 0 {
        lemma_nearest_in_range(pl, av, int_, b, j - 1);
        assert(51 <= av[j - 1] <= 79);
    }
}

proof fn lemma_nearest_upto_in_range(pl: int, p: Seq<MidiNoteView>, blocked: Seq<Interval>, k: int)
    requires
        0 <= k <= p.len(),
        all_in_range(p),
    ensures
        nearest_upto(pl, p, blocked, k).2 == 0 || 51 <= nearest_upto(pl, p, blocked, k).2 <= 79,
    decreases k,
{
    if k > 0 {
        lemma_nearest_upto_in_range(pl, p, blocked, k - 1);
        let x = p[k - 1];
        assert(note_in_range(x));
        lemma_nearest_in_range(pl, x.available, x.int, nearest_upto(pl, p, blocked, k - 1), x.available.len() as int);
    }
}

proof fn lemma_last_holding_bounds(p: Seq<MidiNoteView>, code: u8, k: int)
    requires
        k <= p.len(),
    ensures
        last_holding(p, code, k) matches Some(i) ==> 0 <= i < k,
    decreases k,
{
    if k > 0 {
        lemma_last_holding_bounds(p, code, k - 1);
    }
}

/// Every code of a voicing lies between 36 (C1) and 79 (G4), but for the lead, the last code,
/// which is 0 when no note of the chord can give it.
pub proof fn lemma_voicing_range(ch: Chord, lead_note: Option<u8>)
    requires
        voiceable(ch, lead_note),
        regular(ch.root),
        ch.bass matches Some(b) ==> regular(b),
    ensures
        forall|i: int| 0 <= i < spec_voicing(ch, lead_note).len() - 1 ==> 36 <= #[trigger] spec_voicing(ch, lead_note)[i] <= 79,
        spec_voicing(ch, lead_note).last() == 0 || 51 <= spec_voicing(ch, lead_note).last() <= 79,
{
    let pl = wanted_lead(lead_note);
    let raw = pool_of(ch.notes@, ch.intervals@);
    let p = chord_pool(ch);
    lemma_pool_in_range(ch.notes@, ch.intervals@);
    lemma_sort_in_range(raw, 12);
    let lead = spec_lead(pl, p);
    lemma_nearest_upto_in_range(pl, p, blocked_upto(p, p.len() as int), p.len() as int);
    let rest = after_lead(pl, p);
    assert(all_in_range(rest)) by {
        lemma_last_holding_bounds(p, lead, p.len() as int);
        match last_holding(p, lead, p.len() as int) {
            Some(i) => {
                if 0 <= i < p.len() {
                    assert forall|k: int| 0 <= k < p.remove(i).len() implies note_in_range(#[trigger] p.remove(i)[k]) by {
                        if k < i {
                            assert(p.remove(i)[k] == p[k]);
                        } else {
                            assert(p.remove(i)[k] == p[k + 1]);
                        }
                    }
                }
            },
            None => {},
        }
    }
    let guides = kind_of(rest, true);
    let tensions = kind_of(rest, false);
    lemma_kind_in_range(rest, true);
    lemma_kind_in_range(rest, false);
    lemma_pick_run_in_range(guides, true, 255);
    lemma_pick_run_in_range(tensions, false, lead);
    let head = voicing_head(ch);
    let a = pick_run(guides, true, 255);
    let t = pick_run(tensions, false, lead);
    let v = spec_voicing(ch, lead_note);
    assert(v == head + a + t + seq![lead]);
    assert(forall|i: int| 0 <= i < head.len() ==> 36 <= #[trigger] head[i] <= 79);
    assert forall|i: int| 0 <= i < v.len() - 1 implies 36 <= #[trigger] v[i] <= 79 by {
        if i < head.len() {
            assert(v[i] == head[i]);
        } else if i < head.len() + a.len() {
            assert(v[i] == a[i - head.len()]);
        } else {
            assert(v[i] == t[i - head.len() - a.len()]);
        }
    }
    assert(v.last() == lead);
}

proof fn lemma_concat_contains<A>(a: Seq<A>, b: Seq<A>, x: A)
    ensures
        (a + b).contains(x) <==> a.contains(x) || b.contains(x),
{
    if (a + b).contains(x) {
        let i = choose|i: int| 0 <= i < (a + b).len() && (a + b)[i] == x;
        if i < a.len() {
            assert(a[i] == x);
        } else {
            assert(b[i - a.len()] == x);
        }
    }
    if a.contains(x) {
        let i = choose|i: int| 0 <= i < a.len() && a[i] == x;
        assert((a + b)[i] == x);
    }
    if b.contains(x) {
        let i = choose|i: int| 0 <= i < b.len() && b[i] == x;
        assert((a + b)[a.len() + i] == x);
    }
}

proof fn lemma_single_contains<A>(e: A, x: A)
    ensures
        seq![e].contains(x) <==> x == e,
{
    if x == e {
        assert(seq![e][0] == x);
    }
}

proof fn lemma_pool_of_has(notes: Seq<Note>, ints: Seq<Interval>, k: int)
    requires
        0 <= k < notes.len(),
        k < ints.len(),
    ensures
        pool_of(notes, ints).contains(note_view(notes[k], ints[k])),
    decreases notes.len(),
{
    let q = pool_of(notes.drop_last(), ints);
    let nv = note_view(notes.last(), ints[notes.len() - 1]);
    if notes.len() <= ints.len() {
        assert(pool_of(notes, ints) =~= q + seq![nv]);
        lemma_concat_contains(q, seq![nv], note_view(notes[k], ints[k]));
        lemma_single_contains(nv, note_view(notes[k], ints[k]));
    }
    if k < notes.len() - 1 {
        lemma_pool_of_has(notes.drop_last(), ints, k);
        assert(notes.drop_last()[k] == notes[k]);
    }
}

proof fn lemma_pool_of_from(notes: Seq<Note>, ints: Seq<Interval>, y: MidiNoteView)
    requires
        pool_of(notes, ints).contains(y),
    ensures
        exists|k: int| 0 <= k < notes.len() && k < ints.len() && y == note_view(notes[k], ints[k]),
    decreases notes.len(),
{
    if notes.len() > 0 && ints.len() > 0 {
        let q = pool_of(notes.drop_last(), ints);
        let nv = note_view(notes.last(), ints[notes.len() - 1]);
        if notes.len() <= ints.len() {
            assert(pool_of(notes, ints) =~= q + seq![nv]);
            lemma_concat_contains(q, seq![nv], y);
            lemma_single_contains(nv, y);
        }
        if q.contains(y) {
            lemma_pool_of_from(notes.drop_last(), ints, y);
            let k = choose|k: int| 0 <= k < notes.drop_last().len() && k < ints.len() && y == note_view(notes.drop_last()[k], ints[k]);
            assert(notes.drop_last()[k] == notes[k]);
        } else {
            assert(y == note_view(notes[notes.len() - 1], ints[notes.len() - 1]));
        }
    }
}

proof fn lemma_by_base_has(p: Seq<MidiNoteView>, b: int, x: MidiNoteView)
    ensures
        by_base(p, b).contains(x) <==> p.contains(x) && x.base == b,
    decreases p.len(),
{
    if p.len() > 0 {
        lemma_by_base_has(p.drop_last(), b, x);
        let t: Seq<MidiNoteView> = if p.last().base == b { seq![p.last()] } else { Seq::empty() };
        lemma_concat_contains(by_base(p.drop_last(), b), t, x);
        lemma_single_contains(p.last(), x);
        assert(p =~= p.drop_last() + seq![p.last()]);
        lemma_concat_contains(p.drop_last(), seq![p.last()], x);
    }
}

proof fn lemma_sort_upto_has(p: Seq<MidiNoteView>, b: int, x: MidiNoteView)
    ensures
        sort_upto(p, b).contains(x) <==> p.contains(x) && 0 <= x.base < b,
    decreases b,
{
    if b > 0 {
        lemma_sort_upto_has(p, b - 1, x);
        lemma_by_base_has(p, b - 1, x);
        lemma_concat_contains(sort_upto(p, b - 1), by_base(p, b - 1), x);
    }
}

proof fn lemma_kind_of_has(p: Seq<MidiNoteView>, guide: bool, x: MidiNoteView)
    ensures
        kind_of(p, guide).contains(x) <==> p.contains(x) && ((guide && is_guide(x.int)) || (!guide && is_tension(x.int))),
    decreases p.len(),
{
    if p.len() > 0 {
        lemma_kind_of_has(p.drop_last(), guide, x);
        let y = p.last();
        let t: Seq<MidiNoteView> = if (guide && is_guide(y.int)) || (!guide && is_tension(y.int)) {
            seq![y]
        } else {
            Seq::empty()
        };
        lemma_concat_contains(kind_of(p.drop_last(), guide), t, x);
        lemma_single_contains(y, x);
        assert(p =~= p.drop_last() + seq![y]);
        lemma_concat_contains(p.drop_last(), seq![y], x);
    }
}

proof fn lemma_remove_has(p: Seq<MidiNoteView>, i: int, x: MidiNoteView)
    requires
        0 <= i < p.len(),
    ensures
        p.remove(i).contains(x) ==> p.contains(x),
        p.contains(x) && x != p[i] ==> p.remove(i).contains(x),
{
    if p.remove(i).contains(x) {
        let k = choose|k: int| 0 <= k < p.remove(i).len() && p.remove(i)[k] == x;
        if k < i {
            assert(p[k] == x);
        } else {
            assert(p[k + 1] == x);
        }
    }
    if p.contains(x) && x != p[i] {
        let k = choose|k: int| 0 <= k < p.len() && p[k] == x;
        if k < i {
            assert(p.remove(i)[k] == x);
        } else {
            assert(k != i);
            assert(p.remove(i)[k - 1] == x);
        }
    }
}

proof fn lemma_last_holding_has(p: Seq<MidiNoteView>, code: u8, k: int)
    requires
        k <= p.len(),
    ensures
        last_holding(p, code, k) matches Some(i) ==> 0 <= i < k && p[i].available.contains(code),
    decreases k,
{
    if k > 0 {
        lemma_last_holding_has(p, code, k - 1);
    }
}

proof fn lemma_pick_in_from(av: Seq<u8>, int_: Interval, b: (u8, Interval), guide: bool, lead: u8, j: int)
    requires
        0 <= j <= av.len(),
    ensures
        pick_in(av, int_, b, guide, lead, j) == b || (pick_in(av, int_, b, guide, lead, j).1 == int_ && av.contains(
            pick_in(av, int_, b, guide, lead, j).0,
        )),
    decreases j,
{
    if j > 0 {
        lemma_pick_in_from(av, int_, b, guide, lead, j - 1);
        assert(av[j - 1] == av[j - 1]);
    }
}

proof fn lemma_pick_upto_from(g: Seq<MidiNoteView>, guide: bool, lead: u8, k: int)
    requires
        0 <= k <= g.len(),
    ensures
        pick_upto(g, guide, lead, k) == (if guide { 255u8 } else { 0u8 }, Interval::Unison) || exists|c: int|
            0 <= c < k && g[c].int == pick_upto(g, guide, lead, k).1 && #[trigger] g[c].available.contains(
                pick_upto(g, guide, lead, k).0,
            ),
    decreases k,
{
    if k > 0 {
        lemma_pick_upto_from(g, guide, lead, k - 1);
        let x = g[k - 1];
        let prev = pick_upto(g, guide, lead, k - 1);
        lemma_pick_in_from(x.available, x.int, prev, guide, lead, x.available.len() as int);
        if pick_upto(g, guide, lead, k) != prev {
            assert(g[k - 1].available.contains(pick_upto(g, guide, lead, k).0));
        } else if prev != (if guide { 255u8 } else { 0u8 }, Interval::Unison) {
            let c0 = choose|c: int| 0 <= c < k - 1 && g[c].int == prev.1 && #[trigger] g[c].available.contains(prev.0);
            assert(g[c0].available.contains(prev.0));
        }
    }
}

/// Whether some code of `r` is one of the codes of a note of `g` at interval `i`.
pub open spec fn voiced_in(r: Seq<u8>, g: Seq<MidiNoteView>, i: Interval) -> bool {
    exists|j: int, y: MidiNoteView| 0 <= j < r.len() && #[trigger] g.contains(y) && y.int == i && y.available.contains(
        #[trigger] r[j],
    )
}

proof fn lemma_pick_run_covers(g: Seq<MidiNoteView>, guide: bool, lead: u8)
    requires
        runs_out(g, guide, lead),
    ensures
        forall|x: MidiNoteView| #[trigger] g.contains(x) ==> voiced_in(pick_run(g, guide, lead), g, x.int),
    decreases g.len(),
{
    if g.len() > 0 {
        let r = pick_run(g, guide, lead);
        let (c, iv) = pick_upto(g, guide, lead, g.len() as int);
        assert(g.contains(g[0]));
        let y0 = choose|y: MidiNoteView| g.contains(y) && y.int == g[0].int && has_pickable(y, guide, lead);
        let b = choose|b: int| 0 <= b < g.len() && g[b] == y0;
        lemma_pick_upto(g, guide, lead, g.len() as int, b);
        lemma_pick_upto_from(g, guide, lead, g.len() as int);
        let c0 = choose|q: int| 0 <= q < g.len() && g[q].int == iv && #[trigger] g[q].available.contains(c);
        let rest = without_int(g, iv);
        lemma_without_shorter(g, iv);
        lemma_runs_out_without(g, iv, guide, lead);
        lemma_pick_run_covers(rest, guide, lead);
        assert(r == seq![c] + pick_run(rest, guide, lead));
        assert forall|x: MidiNoteView| #[trigger] g.contains(x) implies voiced_in(r, g, x.int) by {
            if x.int == iv {
                assert(g.contains(g[c0]));
                assert(r[0] == c);
            } else {
                lemma_without_contains(g, iv, x);
                assert(rest.contains(x));
                let rr = pick_run(rest, guide, lead);
                let (j, y) = choose|j: int, y: MidiNoteView| 0 <= j < rr.len() && #[trigger] rest.contains(y) && y.int == x.int
                    && y.available.contains(#[trigger] rr[j]);
                lemma_without_contains(g, iv, y);
                assert(r[j + 1] == rr[j]);
                assert(g.contains(y));
            }
        }
    }
}

/// Every note of a chord that a voicing can hold is voiced: for each chord note whose interval
/// is not the root, a second, a minor sixth or the octave, either the lead is one of that
/// note's codes, or a code of the voicing between its bass notes and its lead is a code of a
/// chord note at the same interval. Guide tones (thirds, fourths, altered fifths, sixths,
/// sevenths) and tensions (fifths, ninths, elevenths, thirteenths) alike are never left out.
pub proof fn lemma_voicing_covers_notes(ch: Chord, lead_note: Option<u8>, k: int)
    requires
        voiceable(ch, lead_note),
        0 <= k < ch.notes@.len(),
        k < ch.intervals@.len(),
        ch.intervals@[k] != Interval::Unison,
        ch.intervals@[k] != Interval::MinorSecond,
        ch.intervals@[k] != Interval::MajorSecond,
        ch.intervals@[k] != Interval::MinorSixth,
        ch.intervals@[k] != Interval::Octave,
    ensures
        ({
            let v = spec_voicing(ch, lead_note);
            let h = voicing_head(ch).len();
            ||| octaves(spec_midi_code(ch.notes@[k])).contains(v.last())
            ||| exists|j: int, k2: int|
                h <= j < v.len() - 1 && 0 <= k2 < ch.notes@.len() && k2 < ch.intervals@.len() && ch.intervals@[k2]
                    == ch.intervals@[k] && #[trigger] octaves(spec_midi_code(ch.notes@[k2])).contains(#[trigger] v[j])
        }),
{
    let pl = wanted_lead(lead_note);
    let raw = pool_of(ch.notes@, ch.intervals@);
    let p = chord_pool(ch);
    let x = note_view(ch.notes@[k], ch.intervals@[k]);
    lemma_pool_of_has(ch.notes@, ch.intervals@, k);
    lemma_sort_upto_has(raw, 12, x);
    assert(p.contains(x));
    let lead = spec_lead(pl, p);
    let v = spec_voicing(ch, lead_note);
    let head = voicing_head(ch);
    let rest = after_lead(pl, p);
    let a = pick_run(kind_of(rest, true), true, 255);
    let t = pick_run(kind_of(rest, false), false, lead);
    assert(v == head + a + t + seq![lead]);
    assert(v.last() == lead);
    if !x.available.contains(lead) {
        lemma_last_holding_has(p, lead, p.len() as int);
        match last_holding(p, lead, p.len() as int) {
            Some(i) => {
                lemma_remove_has(p, i, x);
            },
            None => {},
        }
        assert(rest.contains(x));
        let guide = is_guide(x.int);
        assert(guide || is_tension(x.int));
        let g = kind_of(rest, guide);
        lemma_kind_of_has(rest, guide, x);
        assert(g.contains(x));
        let ld: u8 = if guide { 255 } else { lead };
        assert(runs_out(g, guide, ld));
        lemma_pick_run_covers(g, guide, ld);
        let r = pick_run(g, guide, ld);
        assert(voiced_in(r, g, x.int));
        let (j, y) = choose|j: int, y: MidiNoteView| 0 <= j < r.len() && #[trigger] g.contains(y) && y.int == x.int
            && y.available.contains(#[trigger] r[j]);
        lemma_kind_of_has(rest, guide, y);
        match last_holding(p, lead, p.len() as int) {
            Some(i) => {
                lemma_remove_has(p, i, y);
            },
            None => {},
        }
        assert(p.contains(y));
        lemma_sort_upto_has(raw, 12, y);
        lemma_pool_of_from(ch.notes@, ch.intervals@, y);
        let k2 = choose|k2: int| 0 <= k2 < ch.notes@.len() && k2 < ch.intervals@.len() && y == note_view(ch.notes@[k2], ch.intervals@[k2]);
        let jj = if guide { head.len() + j } else { head.len() + a.len() + j };
        if guide {
            assert(v[jj] == a[j]);
        } else {
            assert(v[jj] == t[j]);
        }
        assert(octaves(spec_midi_code(ch.notes@[k2])).contains(v[jj]));
    }
}

} // verus!
