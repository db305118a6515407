//! The reading of a token stream into a parsed chord symbol, as a state machine.
//!
//! Nested parentheses are kept as a stack of the positions of the open ones: inside a group a
//! closing parenthesis closes it, the end of the input reports it unclosed, and an opening
//! one is reported as nested and opens a new group.
use crate::chord::interval::{spec_from_notation, Interval};
use crate::chord::note::{modifier_text, Note, NoteLiteral, NoteModifier};
use crate::parsing::expression::{AddExp, Exp, ExtensionExp, OmitExp, SlashBassExp, SusExp};
use crate::parsing::parser_error::ErrorView;
use crate::parsing::token::{Token, TokenType};
use crate::text::decimal;
use vstd::prelude::*;

verus! {

/// The kind of group a parenthesis opened with `add` or `omit` is.
#[derive(Debug, Clone, Copy, PartialEq, Eq, Structural)]
pub enum GroupKind {
    Omit,
    Add,
}

/// A group inside parentheses: after a comma (`active`), bare numbers are read as its kind,
/// so in `C7(omit3,5)` the 5 is omitted too.
#[derive(Debug, Clone, Copy, PartialEq, Eq, Structural)]
pub struct GroupContext {
    pub kind: GroupKind,
    pub active: bool,
}

/// What the numbers read next refer to: nothing special, a pending suspension, or a group.
#[derive(Debug, Clone, Copy, PartialEq, Eq, Structural)]
pub enum Context {
    Normal,
    Sus,
    Group(GroupContext),
}

/// A comma makes a group active and ends anything else.
pub open spec fn spec_on_comma(c: Context) -> Context {
    match c {
        Context::Group(g) => Context::Group(GroupContext { kind: g.kind, active: true }),
        _ => Context::Normal,
    }
}

impl Context {
    pub fn start_group(kind: GroupKind) -> (r: Context)
        ensures
            r == Context::Group(GroupContext { kind, active: false }),
    {
        Context::Group(GroupContext { kind, active: false })
    }

    pub fn on_comma(self) -> (r: Context)
        ensures
            r == spec_on_comma(self),
    {
        match self {
            Context::Group(g) => Context::Group(GroupContext { kind: g.kind, active: true }),
            _ => Context::Normal,
        }
    }
}

/// What has been read so far: the root, the expressions and errors in order, the count of
/// open parentheses and the context.
pub struct PState {
    pub root: Note,
    pub exps: Seq<Exp>,
    pub errs: Seq<ErrorView>,
    pub open: int,
    pub ctx: Context,
}

/// The kind of the token at `j`, if there is one.
pub open spec fn kind_at(toks: Seq<Token>, j: int) -> Option<TokenType> {
    if 0 <= j < toks.len() {
        Some(toks[j].token_type)
    } else {
        None
    }
}

/// Whether the token at `j` is the number `v`.
pub open spec fn number_at(toks: Seq<Token>, j: int, v: u8) -> bool {
    kind_at(toks, j) == Some(TokenType::Extension(v))
}

/// The position of the token at `j`, or `fallback` past the end.
pub open spec fn pos_at(toks: Seq<Token>, j: int, fallback: usize) -> usize {
    if 0 <= j < toks.len() {
        toks[j].pos
    } else {
        fallback
    }
}

/// An accidental at `j`, read if there: the accidental and the index after it.
pub open spec fn accidental_at(toks: Seq<Token>, j: int) -> (Option<i8>, int) {
    match kind_at(toks, j) {
        Some(TokenType::Flat) => (Some(-1i8), j + 1),
        Some(TokenType::Sharp) => (Some(1i8), j + 1),
        _ => (None, j),
    }
}

/// The note accidental of an accidental read.
pub open spec fn note_modifier(m: Option<i8>) -> Option<NoteModifier> {
    match m {
        Some(x) => Some(NoteModifier(x)),
        None => None,
    }
}

/// The text of an optional accidental.
pub open spec fn accidental_text(m: Option<i8>) -> Seq<char> {
    match m {
        Some(x) => modifier_text(x),
        None => Seq::empty(),
    }
}

pub open spec fn push_exp(st: PState, e: Exp) -> PState {
    PState { exps: st.exps.push(e), ..st }
}

pub open spec fn push_err(st: PState, e: ErrorView) -> PState {
    PState { errs: st.errs.push(e), ..st }
}

/// The intervals a suspension can be written with.
pub open spec fn allowed_sus(i: Interval) -> bool {
    i == Interval::MinorSecond || i == Interval::MajorSecond || i == Interval::PerfectFourth
        || i == Interval::AugmentedFourth
}

/// Adds an interval read at `pos`: it completes a pending suspension (a suspension on the
/// fourth is assumed when it cannot be one), joins an active group, or is an extension; a
/// bare fourth is a suspension and a bare sharp fourth an error.
pub open spec fn spec_add_interval(st: PState, iv: Interval, pos: usize) -> PState {
    match st.ctx {
        Context::Sus => if allowed_sus(iv) {
            PState { exps: st.exps.push(Exp::Sus(SusExp { interval: iv })), ctx: Context::Normal, ..st }
        } else {
            PState {
                exps: st.exps.push(Exp::Sus(SusExp { interval: Interval::PerfectFourth })).push(
                    Exp::Extension(ExtensionExp { interval: iv, pos }),
                ),
                ctx: Context::Normal,
                ..st
            }
        },
        Context::Group(g) => if g.active {
            match g.kind {
                GroupKind::Omit => push_exp(st, Exp::Omit(OmitExp { interval: iv, target_pos: pos })),
                GroupKind::Add => push_exp(st, Exp::Add(AddExp { interval: iv, target_pos: pos })),
            }
        } else {
            spec_plain_interval(st, iv, pos)
        },
        Context::Normal => spec_plain_interval(st, iv, pos),
    }
}

pub open spec fn spec_plain_interval(st: PState, iv: Interval, pos: usize) -> PState {
    if iv == Interval::PerfectFourth {
        push_exp(st, Exp::Sus(SusExp { interval: iv }))
    } else if iv == Interval::AugmentedFourth {
        push_err(st, ErrorView::InvalidExtension(pos))
    } else {
        push_exp(st, Exp::Extension(ExtensionExp { interval: iv, pos }))
    }
}

/// An accidental at `i`: it must be followed by a number, and together they must name an
/// interval.
pub open spec fn spec_modifier(st: PState, toks: Seq<Token>, i: int, m: i8) -> (PState, int) {
    let t = toks[i];
    match kind_at(toks, i + 1) {
        Some(TokenType::Extension(e)) => match spec_from_notation(modifier_text(m) + decimal(e as nat)) {
            Some(iv) => (spec_add_interval(st, iv, t.pos), i + 2),
            None => (push_err(st, ErrorView::InvalidExtension((t.pos + 1) as usize)), i + 2),
        },
        _ => (push_err(st, ErrorView::UnexpectedModifier(t.pos)), i + 1),
    }
}

/// A bare number: a 5 outside any context is a power chord; others name an interval.
pub open spec fn spec_extension(st: PState, e: u8, pos: usize) -> PState {
    if e == 5 && st.ctx == Context::Normal {
        push_exp(st, Exp::Power)
    } else {
        match spec_from_notation(decimal(e as nat)) {
            Some(iv) => spec_add_interval(st, iv, pos),
            None => push_err(st, ErrorView::InvalidExtension(pos)),
        }
    }
}

/// `add` at `i`: opens an add group inside parentheses; takes an optional accidental and a
/// number, or a major seventh.
pub open spec fn spec_add(st: PState, toks: Seq<Token>, i: int) -> (PState, int) {
    let t = toks[i];
    let st1 = if st.open > 0 {
        PState { ctx: Context::Group(GroupContext { kind: GroupKind::Add, active: false }), ..st }
    } else {
        st
    };
    let (m, j) = accidental_at(toks, i + 1);
    match kind_at(toks, j) {
        Some(TokenType::Extension(e)) => match spec_from_notation(accidental_text(m) + decimal(e as nat)) {
            Some(iv) => (push_exp(st1, Exp::Add(AddExp { interval: iv, target_pos: toks[j].pos })), j + 1),
            None => (push_err(st1, ErrorView::InvalidExtension(t.pos)), j + 1),
        },
        Some(TokenType::Maj7) => (
            push_exp(st1, Exp::Add(AddExp { interval: Interval::MajorSeventh, target_pos: (t.pos + t.len) as usize })),
            j + 1,
        ),
        _ => (push_err(st1, ErrorView::MissingAddTarget(t.pos, t.len)), j),
    }
}

/// `omit` at `i`: opens an omit group inside parentheses; takes a 5 or a 3.
pub open spec fn spec_omit(st: PState, toks: Seq<Token>, i: int) -> (PState, int) {
    let t = toks[i];
    let st1 = if st.open > 0 {
        PState { ctx: Context::Group(GroupContext { kind: GroupKind::Omit, active: false }), ..st }
    } else {
        st
    };
    if number_at(toks, i + 1, 5) {
        (push_exp(st1, Exp::Omit(OmitExp { interval: Interval::PerfectFifth, target_pos: (t.pos + t.len) as usize })), i + 2)
    } else if number_at(toks, i + 1, 3) {
        (push_exp(st1, Exp::Omit(OmitExp { interval: Interval::MajorThird, target_pos: (t.pos + t.len) as usize })), i + 2)
    } else {
        (push_err(st1, ErrorView::IllegalOrMissingOmitTarget(t.pos, t.len)), i + 1)
    }
}

/// `sus`: waits for the interval when a number or accidental follows, else suspends the fourth.
pub open spec fn spec_sus(st: PState, toks: Seq<Token>, i: int) -> PState {
    match kind_at(toks, i + 1) {
        Some(TokenType::Extension(_)) | Some(TokenType::Sharp) | Some(TokenType::Flat) => PState {
            ctx: Context::Sus,
            ..st
        },
        _ => PState {
            exps: st.exps.push(Exp::Sus(SusExp { interval: Interval::PerfectFourth })),
            ctx: Context::Normal,
            ..st
        },
    }
}

/// After a slash: the input must end.
pub open spec fn spec_slash_end(st: PState, toks: Seq<Token>, j: int, fallback: usize) -> (PState, int) {
    if kind_at(toks, j) == Some(TokenType::Eof) {
        (st, j)
    } else {
        (push_err(st, ErrorView::IllegalSlashNotation(pos_at(toks, j, fallback))), j)
    }
}

/// A slash at `i`: `/9` adds a ninth, a note is the bass; anything else is an error. The
/// slash part must end the input.
pub open spec fn spec_slash(st: PState, toks: Seq<Token>, i: int) -> (PState, int) {
    let t = toks[i];
    match kind_at(toks, i + 1) {
        Some(TokenType::Extension(a)) => {
            let st1 = if a == 9 {
                push_exp(st, Exp::Add(AddExp { interval: Interval::Ninth, target_pos: toks[i + 1].pos }))
            } else {
                push_err(st, ErrorView::IllegalSlashNotation(pos_at(toks, i + 2, t.pos)))
            };
            spec_slash_end(st1, toks, i + 2, t.pos)
        },
        Some(TokenType::Note(n)) => {
            let (m, j) = accidental_at(toks, i + 2);
            spec_slash_end(
                push_exp(st, Exp::SlashBass(SlashBassExp { note: Note { literal: n, modifier: note_modifier(m) } })),
                toks,
                j,
                t.pos,
            )
        },
        Some(_) => spec_slash_end(push_err(st, ErrorView::IllegalSlashNotation(pos_at(toks, i + 2, t.pos))), toks, i + 2, t.pos),
        None => spec_slash_end(push_err(st, ErrorView::IllegalSlashNotation(t.pos)), toks, i + 1, t.pos),
    }
}

/// Reads the token at `i` (and the ones it takes with it); gives the index of the next one.
pub open spec fn spec_process(st: PState, toks: Seq<Token>, i: int) -> (PState, int) {
    let t = toks[i];
    match t.token_type {
        TokenType::Note(_) => (push_err(st, ErrorView::UnexpectedNote(t.pos)), i + 1),
        TokenType::Sharp => spec_modifier(st, toks, i, 1i8),
        TokenType::Flat => spec_modifier(st, toks, i, -1i8),
        TokenType::Aug => (push_exp(st, Exp::Aug), if number_at(toks, i + 1, 5) { i + 2 } else { i + 1 }),
        TokenType::Dim => if number_at(toks, i + 1, 7) {
            (push_exp(st, Exp::Dim7), i + 2)
        } else {
            (push_exp(st, Exp::Dim), i + 1)
        },
        TokenType::Dim7 => (push_exp(st, Exp::Dim7), i + 1),
        TokenType::HalfDim => (push_exp(st, Exp::HalfDim), i + 1),
        TokenType::Extension(e) => (spec_extension(st, e, t.pos), i + 1),
        TokenType::Add => spec_add(st, toks, i),
        TokenType::Omit => spec_omit(st, toks, i),
        TokenType::Alt => (push_exp(st, Exp::Alt), i + 1),
        TokenType::Sus => (spec_sus(st, toks, i), i + 1),
        TokenType::Minor => (push_exp(st, Exp::Minor), i + 1),
        TokenType::Hyphen => if number_at(toks, i + 1, 5) {
            (push_exp(st, Exp::Extension(ExtensionExp { interval: Interval::DiminishedFifth, pos: t.pos })), i + 2)
        } else {
            (push_exp(st, Exp::Minor), i + 1)
        },
        TokenType::Maj => (push_exp(st, Exp::Maj), i + 1),
        TokenType::Maj7 => (push_exp(st, Exp::Maj7), i + 1),
        TokenType::Slash => spec_slash(st, toks, i),
        TokenType::LParent => (PState { open: st.open + 1, ctx: Context::Normal, ..st }, i + 1),
        TokenType::RParent => {
            let st1 = if st.open != 1 { push_err(st, ErrorView::UnexpectedClosingParenthesis(t.pos)) } else { st };
            (PState { open: st1.open - 1, ctx: Context::Normal, ..st1 }, i + 1)
        },
        TokenType::Comma => (PState { ctx: spec_on_comma(st.ctx), ..st }, i + 1),
        TokenType::Bass => (push_exp(st, Exp::Bass), i + 1),
        TokenType::Illegal => (push_err(st, ErrorView::IllegalToken(t.pos)), i + 1),
        TokenType::Eof => (st, i + 1),
    }
}

/// One step of the machine, with the stack of open parentheses' positions.
pub open spec fn spec_step(st: PState, stack: Seq<usize>, toks: Seq<Token>, i: int) -> (PState, Seq<usize>, int) {
    let t = toks[i];
    if stack.len() > 0 {
        match t.token_type {
            TokenType::RParent => (PState { open: st.open - 1, ..st }, stack.drop_last(), i + 1),
            TokenType::Eof => (push_err(st, ErrorView::MissingClosingParenthesis(stack.last())), stack.drop_last(), i + 1),
            TokenType::LParent => (
                PState {
                    errs: st.errs.push(ErrorView::NestedParenthesis(stack.last())),
                    open: st.open + 1,
                    ctx: Context::Normal,
                    ..st
                },
                stack.push(t.pos),
                i + 1,
            ),
            _ => {
                let (s2, j) = spec_process(st, toks, i);
                (s2, stack, j)
            },
        }
    } else {
        match t.token_type {
            TokenType::LParent => (PState { open: st.open + 1, ctx: Context::Normal, ..st }, stack.push(t.pos), i + 1),
            _ => {
                let (s2, j) = spec_process(st, toks, i);
                (s2, stack, j)
            },
        }
    }
}

/// Runs the machine from token `i` to the end.
pub open spec fn spec_run(st: PState, stack: Seq<usize>, toks: Seq<Token>, i: int) -> PState
    decreases toks.len() - i,
{
    if i < 0 || i >= toks.len() {
        st
    } else {
        let (s2, stack2, j) = spec_step(st, stack, toks, i);
        if j > i {
            spec_run(s2, stack2, toks, j)
        } else {
            s2
        }
    }
}

/// The state before anything is read: a C root, nothing else.
pub open spec fn spec_start() -> PState {
    PState {
        root: Note { literal: NoteLiteral::C, modifier: None },
        exps: Seq::empty(),
        errs: Seq::empty(),
        open: 0,
        ctx: Context::Normal,
    }
}

/// Reads the root: a note and an optional accidental; gives the index after it.
pub open spec fn spec_read_root(toks: Seq<Token>) -> (PState, int) {
    match kind_at(toks, 0) {
        Some(TokenType::Note(n)) => {
            let (m, j) = accidental_at(toks, 1);
            (PState { root: Note { literal: n, modifier: note_modifier(m) }, ..spec_start() }, j)
        },
        Some(_) => (push_err(spec_start(), ErrorView::MissingRootNote), 1),
        None => (push_err(spec_start(), ErrorView::MissingRootNote), 0),
    }
}

/// Reads a token stream.
pub open spec fn spec_read(toks: Seq<Token>) -> PState {
    let (s0, i0) = spec_read_root(toks);
    spec_run(s0, Seq::empty(), toks, i0)
}

/// A slash followed by a note reads that note as the bass, with the accidental written after
/// it: a sharp sign raises it a semitone, a flat sign lowers it a semitone, and with neither it
/// is natural. The bass is the one expression the slash adds.
pub proof fn lemma_slash_reads_bass(st: PState, toks: Seq<Token>, i: int, n: NoteLiteral)
    requires
        0 <= i,
        i + 1 < toks.len(),
        toks[i].token_type == TokenType::Slash,
        toks[i + 1].token_type == TokenType::Note(n),
    ensures
        spec_process(st, toks, i).0.exps == st.exps.push(
            Exp::SlashBass(
                SlashBassExp {
                    note: Note {
                        literal: n,
                        modifier: if kind_at(toks, i + 2) == Some(TokenType::Sharp) {
                            Some(NoteModifier(1))
                        } else if kind_at(toks, i + 2) == Some(TokenType::Flat) {
                            Some(NoteModifier(-1i8))
                        } else {
                            None
                        },
                    },
                },
            ),
        ),
        spec_process(st, toks, i).0.root == st.root,
{
}

proof fn lemma_step_keeps_root(st: PState, stack: Seq<usize>, toks: Seq<Token>, i: int)
    requires
        0 <= i < toks.len(),
    ensures
        spec_step(st, stack, toks, i).0.root == st.root,
{
    let t = toks[i];
    match t.token_type {
        TokenType::Sharp => {
            assert(spec_modifier(st, toks, i, 1i8).0.root == st.root);
        },
        TokenType::Flat => {
            assert(spec_modifier(st, toks, i, -1i8).0.root == st.root);
        },
        TokenType::Extension(e) => {
            assert(spec_extension(st, e, t.pos).root == st.root);
        },
        TokenType::Add => {
            assert(spec_add(st, toks, i).0.root == st.root);
        },
        TokenType::Omit => {
            assert(spec_omit(st, toks, i).0.root == st.root);
        },
        TokenType::Slash => {
            assert(spec_slash(st, toks, i).0.root == st.root);
        },
        _ => {},
    }
}

/// Reading the tokens after the root never changes the root.
pub proof fn lemma_run_keeps_root(st: PState, stack: Seq<usize>, toks: Seq<Token>, i: int)
    ensures
        spec_run(st, stack, toks, i).root == st.root,
    decreases toks.len() - i,
{
    if 0 <= i < toks.len() {
        let (s2, stack2, j) = spec_step(st, stack, toks, i);
        lemma_step_keeps_root(st, stack, toks, i);
        if j > i {
            lemma_run_keeps_root(s2, stack2, toks, j);
        }
    }
}

} // verus!
