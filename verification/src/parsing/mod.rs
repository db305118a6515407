//! Chord parsing: from a chord symbol to a [`Chord`](crate::chord::Chord).
pub mod ast;
pub mod evaluator;
pub mod expression;
pub mod laws;
pub mod lexer;
pub mod machine;
pub mod normalize;
pub mod parser_error;
pub mod prepare;
pub mod token;
pub mod validator;

use crate::chord::interval::{spec_from_notation, Interval};
use crate::chord::note::{modifier_text, Note, NoteModifier};
use crate::chord::{Chord, ChordView};
use crate::parsing::ast::Ast;
use crate::parsing::evaluator::{spec_evaluate, Evaluator};
use crate::parsing::expression::{AddExp, Exp, ExtensionExp, OmitExp, SlashBassExp, SusExp};
use crate::parsing::lexer::{spec_lex, Lexer};
use crate::parsing::machine::{
    accidental_at, note_modifier, number_at, spec_add, spec_add_interval, spec_extension, spec_modifier,
    spec_omit, spec_plain_interval, spec_process, spec_read, spec_read_root, spec_run, spec_slash,
    spec_slash_end, spec_start, spec_step, spec_sus, Context, GroupKind, PState,
};
use crate::parsing::parser_error::{errors_view, ErrorView, ParserError, ParserErrors};
use crate::parsing::prepare::{pre_process, spec_preprocess, within};
use crate::parsing::token::{Token, TokenType};
use crate::text::{decimal, push_decimal};
use vstd::prelude::*;

verus! {

/// The result of parsing a chord symbol: the chord, or the errors that reject it.
pub open spec fn spec_parse(input: Seq<char>) -> Result<ChordView, Seq<ErrorView>> {
    let st = spec_read(spec_preprocess(spec_lex(input)));
    if st.errs.len() > 0 {
        Err(st.errs)
    } else {
        spec_evaluate(st.root, st.exps, input)
    }
}

/// Whether every token's position, plus its length and one, is a `usize`.
pub open spec fn tokens_bounded(toks: Seq<Token>) -> bool {
    forall|k: int| 0 <= k < toks.len() ==> #[trigger] toks[k].pos + toks[k].len + 1 <= usize::MAX
}

/// The parts of the parser a step of the machine leaves alone: the lexer and the root.
pub closed spec fn frame(a: Parser, b: Parser) -> bool {
    a.lexer == b.lexer && a.ast.root == b.ast.root
}

/// Reads chord symbols into [`Chord`] values. The parser is cleared after each chord, so one
/// parser can read any number of them.
pub struct Parser {
    lexer: Lexer,
    errors: Vec<ParserError>,
    ast: Ast,
    open_parent_count: i128,
    context: Context,
}

impl Parser {
    /// The state of the parser as the machine sees it.
    pub closed spec fn model(&self) -> PState {
        PState {
            root: self.ast.root,
            exps: self.ast.expressions@,
            errs: errors_view(self.errors@),
            open: self.open_parent_count as int,
            ctx: self.context,
        }
    }

    /// Whether the parser holds nothing from an earlier chord.
    pub closed spec fn is_reset(&self) -> bool {
        &&& self.model() == spec_start()
        &&& self.lexer.is_reset()
    }

    pub fn new() -> (r: Parser)
        ensures
            r.is_reset(),
    {
        let r = Parser {
            lexer: Lexer::new(),
            errors: Vec::new(),
            ast: Ast::default(),
            open_parent_count: 0,
            context: Context::Normal,
        };
        assert(errors_view(r.errors@) =~= Seq::<ErrorView>::empty());
        r
    }

    /// Parses a chord symbol.
    ///
    /// The chord is rejected if, among others: it has no root or more than one; it has two
    /// basses; it has two thirds, or two fifths other than a flat and a sharp one; it has
    /// contradictory or repeated sevenths; an alteration is illegal (such as `#2`, `b4`, `#6`)
    /// or has no target; a tension is repeated (but a flat and a sharp ninth); a suspension is
    /// not on 2, b2, 4 or #4, or there are two; an added third is altered; an omission is not
    /// of the 3 or the 5; or a slash is followed by anything but a 9 or a bass note.
    pub fn parse(&mut self, input: &str) -> (r: Result<Chord, ParserErrors>)
        requires
            input@.len() * 4 + 102 <= usize::MAX,
        ensures
            final(self).is_reset(),
            match r {
                Ok(c) => spec_parse(input@) == Ok::<ChordView, Seq<ErrorView>>(c@),
                Err(e) => spec_parse(input@) == Err::<ChordView, Seq<ErrorView>>(errors_view(e.errors@)),
            },
    {
        self.cleanup();
        let scanned = self.lexer.scan_tokens(input);
        assert(within(scanned@, 10, usize::MAX - 100)) by {
            assert forall|k: int| 0 <= k < scanned@.len() implies #[trigger] scanned@[k].len <= 10
                && scanned@[k].pos <= usize::MAX - 100 by {
                assert(scanned@[k].pos <= 4 * input@.len() + 1);
            }
        }
        let tokens = pre_process(&scanned);
        assert(tokens_bounded(tokens@)) by {
            assert forall|k: int| 0 <= k < tokens@.len() implies #[trigger] tokens@[k].pos + tokens@[k].len + 1
                <= usize::MAX by {
                assert(tokens@[k].len <= 80);
            }
        }
        let start = self.read_root(&tokens);
        self.read_tokens(&tokens, start);
        if self.errors.len() > 0 {
            let mut errors: Vec<ParserError> = Vec::new();
            std::mem::swap(&mut errors, &mut self.errors);
            self.cleanup();
            return Err(ParserErrors::new(errors));
        }
        let mut ast = Ast::default();
        std::mem::swap(&mut ast, &mut self.ast);
        proof {
            lemma_root_spellable(ast.root);
        }
        let res = Evaluator::evaluate(&ast, input.to_owned());
        self.cleanup();
        res
    }

    /// Clears what was read.
    fn cleanup(&mut self)
        ensures
            final(self).is_reset(),
    {
        self.errors = Vec::new();
        self.ast = Ast::default();
        self.open_parent_count = 0;
        self.context = Context::Normal;
        self.lexer = Lexer::new();
        assert(errors_view(self.errors@) =~= Seq::<ErrorView>::empty());
    }

    /// Reads the root note; gives the index of the token after it.
    fn read_root(&mut self, tokens: &Vec<Token>) -> (r: usize)
        requires
            old(self).is_reset(),
            tokens@.len() < usize::MAX,
        ensures
            (final(self).model(), r as int) == spec_read_root(tokens@),
            r <= tokens@.len(),
            final(self).lexer == old(self).lexer,
    {
        if tokens.len() == 0 {
            self.errors.push(ParserError::MissingRootNote);
            assert(errors_view(self.errors@) =~= seq![ErrorView::MissingRootNote]);
            return 0;
        }
        match tokens[0].token_type {
            TokenType::Note(n) => {
                let (m, j) = Self::match_modifier(tokens, 1);
                self.ast.root = Note::new(n, m);
                j
            },
            _ => {
                self.errors.push(ParserError::MissingRootNote);
                assert(errors_view(self.errors@) =~= seq![ErrorView::MissingRootNote]);
                1
            },
        }
    }

    /// Runs the machine over the tokens from `start`.
    fn read_tokens(&mut self, tokens: &Vec<Token>, start: usize)
        requires
            start <= tokens@.len(),
            tokens@.len() + 3 <= usize::MAX,
            tokens_bounded(tokens@),
            old(self).model().open == 0,
        ensures
            final(self).model() == spec_run(old(self).model(), Seq::empty(), tokens@, start as int),
            frame(*old(self), *final(self)),
    {
        let mut stack: Vec<usize> = Vec::new();
        let mut i = start;
        while i < tokens.len()
            invariant
                start <= i <= tokens@.len(),
                tokens@.len() + 3 <= usize::MAX,
                tokens_bounded(tokens@),
                -(i as int) <= self.open_parent_count <= i,
                frame(*old(self), *self),
                spec_run(self.model(), stack@, tokens@, i as int) == spec_run(old(self).model(), Seq::empty(), tokens@, start as int),
            decreases tokens@.len() - i,
        {
            let t = tokens[i];
            let ghost st = self.model();
            let ghost stk = stack@;
            let j: usize;
            if stack.len() > 0 {
                match t.token_type {
                    TokenType::RParent => {
                        self.open_parent_count = self.open_parent_count - 1;
                        stack.pop();
                        j = i + 1;
                    },
                    TokenType::Eof => {
                        let p = stack.pop().unwrap();
                        self.errors.push(ParserError::MissingClosingParenthesis(p));
                        j = i + 1;
                    },
                    TokenType::LParent => {
                        let p = stack[stack.len() - 1];
                        self.errors.push(ParserError::NestedParenthesis(p));
                        self.open_parent_count = self.open_parent_count + 1;
                        self.context = Context::Normal;
                        stack.push(t.pos);
                        j = i + 1;
                    },
                    _ => {
                        j = self.process_token(tokens, i);
                    },
                }
            } else {
                match t.token_type {
                    TokenType::LParent => {
                        self.open_parent_count = self.open_parent_count + 1;
                        self.context = Context::Normal;
                        stack.push(t.pos);
                        j = i + 1;
                    },
                    _ => {
                        j = self.process_token(tokens, i);
                    },
                }
            }
            proof {
                let (s2, stack2, j2) = spec_step(st, stk, tokens@, i as int);
                assert(errors_view(self.errors@) =~= s2.errs);
                assert(stack@ =~= stack2);
                assert(self.model() == s2);
                assert(j2 == j);
            }
            i = j;
        }
    }

    /// Reads the token at `i`; gives the index of the next one.
    fn process_token(&mut self, tokens: &Vec<Token>, i: usize) -> (r: usize)
        requires
            i < tokens@.len(),
            tokens@.len() + 3 <= usize::MAX,
            tokens_bounded(tokens@),
            -(i as int) <= old(self).open_parent_count <= i,
        ensures
            (final(self).model(), r as int) == spec_process(old(self).model(), tokens@, i as int),
            i < r <= tokens@.len(),
            old(self).open_parent_count - 1 <= final(self).open_parent_count <= old(self).open_parent_count + 1,
            frame(*old(self), *final(self)),
    {
        let token = tokens[i];
        match token.token_type {
            TokenType::Note(_) => {
                self.push_error(ParserError::UnexpectedNote(token.pos));
                i + 1
            },
            TokenType::Sharp => self.modifier(tokens, i, 1),
            TokenType::Flat => self.modifier(tokens, i, -1),
            TokenType::Aug => {
                self.push_exp(Exp::Aug);
                if Self::number_at(tokens, i + 1, 5) { i + 2 } else { i + 1 }
            },
            TokenType::Dim => {
                if Self::number_at(tokens, i + 1, 7) {
                    self.push_exp(Exp::Dim7);
                    i + 2
                } else {
                    self.push_exp(Exp::Dim);
                    i + 1
                }
            },
            TokenType::Dim7 => {
                self.push_exp(Exp::Dim7);
                i + 1
            },
            TokenType::HalfDim => {
                self.push_exp(Exp::HalfDim);
                i + 1
            },
            TokenType::Extension(ext) => {
                self.extension(ext, token.pos);
                i + 1
            },
            TokenType::Add => self.add(tokens, i),
            TokenType::Omit => self.omit(tokens, i),
            TokenType::Alt => {
                self.push_exp(Exp::Alt);
                i + 1
            },
            TokenType::Sus => {
                self.sus(tokens, i);
                i + 1
            },
            TokenType::Minor => {
                self.push_exp(Exp::Minor);
                i + 1
            },
            TokenType::Hyphen => {
                if Self::number_at(tokens, i + 1, 5) {
                    self.push_exp(Exp::Extension(ExtensionExp::new(Interval::DiminishedFifth, token.pos)));
                    i + 2
                } else {
                    self.push_exp(Exp::Minor);
                    i + 1
                }
            },
            TokenType::Maj => {
                self.push_exp(Exp::Maj);
                i + 1
            },
            TokenType::Maj7 => {
                self.push_exp(Exp::Maj7);
                i + 1
            },
            TokenType::Slash => self.slash(tokens, i),
            TokenType::LParent => {
                self.open_parent_count = self.open_parent_count + 1;
                self.context = Context::Normal;
                i + 1
            },
            TokenType::RParent => {
                self.rparen(token.pos);
                i + 1
            },
            TokenType::Comma => {
                self.context = self.context.on_comma();
                i + 1
            },
            TokenType::Bass => {
                self.push_exp(Exp::Bass);
                i + 1
            },
            TokenType::Illegal => {
                self.push_error(ParserError::IllegalToken(token.pos));
                i + 1
            },
            TokenType::Eof => i + 1,
        }
    }

    fn push_exp(&mut self, e: Exp)
        ensures
            final(self).model() == (PState { exps: old(self).model().exps.push(e), ..old(self).model() }),
            final(self).open_parent_count == old(self).open_parent_count,
            frame(*old(self), *final(self)),
    {
        self.ast.expressions.push(e);
    }

    fn push_error(&mut self, e: ParserError)
        ensures
            final(self).model() == (PState { errs: old(self).model().errs.push(e@), ..old(self).model() }),
            final(self).open_parent_count == old(self).open_parent_count,
            frame(*old(self), *final(self)),
    {
        self.errors.push(e);
        assert(errors_view(self.errors@) =~= errors_view(old(self).errors@).push(e@));
    }

    /// Whether the token at `j` is the number `v`.
    fn number_at(tokens: &Vec<Token>, j: usize, v: u8) -> (r: bool)
        ensures
            r == number_at(tokens@, j as int, v),
    {
        j < tokens.len() && tokens[j].token_type == TokenType::Extension(v)
    }

    /// Reads an accidental at `j`, if there is one.
    fn match_modifier(tokens: &Vec<Token>, j: usize) -> (r: (Option<NoteModifier>, usize))
        requires
            j < usize::MAX,
        ensures
            r.0 == note_modifier(accidental_at(tokens@, j as int).0),
            r.1 as int == accidental_at(tokens@, j as int).1,
    {
        if j < tokens.len() {
            match tokens[j].token_type {
                TokenType::Flat => (Some(NoteModifier(-1)), j + 1),
                TokenType::Sharp => (Some(NoteModifier(1)), j + 1),
                _ => (None, j),
            }
        } else {
            (None, j)
        }
    }

    /// The interval named by an optional accidental and a number.
    fn interval_of(m: Option<NoteModifier>, ext: u8) -> (r: Option<Interval>)
        ensures
            r == spec_from_notation(
                match m {
                    Some(x) => modifier_text(x.0),
                    None => Seq::<char>::empty(),
                } + decimal(ext as nat),
            ),
    {
        let mut s = String::new();
        match m {
            Some(x) => {
                let t = x.to_string();
                s.append(t.as_str());
            },
            None => {},
        }
        push_decimal(&mut s, ext as usize);
        proof {
            reveal_strlit("");
            assert(""@ =~= Seq::<char>::empty());
        }
        Interval::from_chord_notation(s.as_str())
    }

    /// An accidental at `i`.
    fn modifier(&mut self, tokens: &Vec<Token>, i: usize, m: i8) -> (r: usize)
        requires
            i < tokens@.len(),
            tokens@.len() + 3 <= usize::MAX,
            tokens_bounded(tokens@),
        ensures
            (final(self).model(), r as int) == spec_modifier(old(self).model(), tokens@, i as int, m),
            i < r <= tokens@.len(),
            final(self).open_parent_count == old(self).open_parent_count,
            frame(*old(self), *final(self)),
    {
        let token = tokens[i];
        if i + 1 < tokens.len() {
            match tokens[i + 1].token_type {
                TokenType::Extension(ext) => {
                    match Self::interval_of(Some(NoteModifier(m)), ext) {
                        Some(iv) => self.add_interval(iv, token.pos),
                        None => self.push_error(ParserError::InvalidExtension(token.pos + 1)),
                    }
                    return i + 2;
                },
                _ => {},
            }
        }
        self.push_error(ParserError::UnexpectedModifier(token.pos));
        i + 1
    }

    /// A bare number.
    fn extension(&mut self, ext: u8, pos: usize)
        ensures
            final(self).model() == spec_extension(old(self).model(), ext, pos),
            final(self).open_parent_count == old(self).open_parent_count,
            frame(*old(self), *final(self)),
    {
        if ext == 5 && self.context == Context::Normal {
            self.push_exp(Exp::Power);
        } else {
            match Self::interval_of(None, ext) {
                Some(iv) => self.add_interval(iv, pos),
                None => self.push_error(ParserError::InvalidExtension(pos)),
            }
        }
    }

    /// Adds an interval read at `pos`, as the context says.
    fn add_interval(&mut self, iv: Interval, pos: usize)
        ensures
            final(self).model() == spec_add_interval(old(self).model(), iv, pos),
            final(self).open_parent_count == old(self).open_parent_count,
            frame(*old(self), *final(self)),
    {
        match self.context {
            Context::Sus => {
                if Self::allowed_sus_interval(iv) {
                    self.push_exp(Exp::Sus(SusExp::new(iv)));
                } else {
                    self.push_exp(Exp::Sus(SusExp::new(Interval::PerfectFourth)));
                    self.push_exp(Exp::Extension(ExtensionExp::new(iv, pos)));
                }
                self.context = Context::Normal;
            },
            Context::Group(g) => {
                if g.active {
                    match g.kind {
                        GroupKind::Omit => self.push_exp(Exp::Omit(OmitExp::new(iv, pos))),
                        GroupKind::Add => self.push_exp(Exp::Add(AddExp::new(iv, pos))),
                    }
                } else {
                    self.plain_interval(iv, pos);
                }
            },
            Context::Normal => self.plain_interval(iv, pos),
        }
    }

    fn plain_interval(&mut self, iv: Interval, pos: usize)
        ensures
            final(self).model() == spec_plain_interval(old(self).model(), iv, pos),
            final(self).open_parent_count == old(self).open_parent_count,
            frame(*old(self), *final(self)),
    {
        match iv {
            Interval::PerfectFourth => self.push_exp(Exp::Sus(SusExp::new(iv))),
            Interval::AugmentedFourth => self.push_error(ParserError::InvalidExtension(pos)),
            _ => self.push_exp(Exp::Extension(ExtensionExp::new(iv, pos))),
        }
    }

    fn allowed_sus_interval(iv: Interval) -> (r: bool)
        ensures
            r == crate::parsing::machine::allowed_sus(iv),
    {
        match iv {
            Interval::MinorSecond | Interval::MajorSecond | Interval::PerfectFourth | Interval::AugmentedFourth => true,
            _ => false,
        }
    }

    /// `add` at `i`.
    fn add(&mut self, tokens: &Vec<Token>, i: usize) -> (r: usize)
        requires
            i < tokens@.len(),
            tokens@.len() + 3 <= usize::MAX,
            tokens_bounded(tokens@),
        ensures
            (final(self).model(), r as int) == spec_add(old(self).model(), tokens@, i as int),
            i < r <= tokens@.len(),
            final(self).open_parent_count == old(self).open_parent_count,
            frame(*old(self), *final(self)),
    {
        let token = tokens[i];
        if self.open_parent_count > 0 {
            self.context = Context::start_group(GroupKind::Add);
        }
        let (m, j) = Self::match_modifier(tokens, i + 1);
        if j < tokens.len() {
            match tokens[j].token_type {
                TokenType::Extension(ext) => {
                    match Self::interval_of(m, ext) {
                        Some(interval) => self.push_exp(Exp::Add(AddExp::new(interval, tokens[j].pos))),
                        None => self.push_error(ParserError::InvalidExtension(token.pos)),
                    }
                    return j + 1;
                },
                TokenType::Maj7 => {
                    self.push_exp(Exp::Add(AddExp::new(Interval::MajorSeventh, token.pos + token.len)));
                    return j + 1;
                },
                _ => {},
            }
        }
        self.push_error(ParserError::MissingAddTarget((token.pos, token.len)));
        j
    }

    /// `omit` at `i`.
    fn omit(&mut self, tokens: &Vec<Token>, i: usize) -> (r: usize)
        requires
            i < tokens@.len(),
            tokens@.len() + 3 <= usize::MAX,
            tokens_bounded(tokens@),
        ensures
            (final(self).model(), r as int) == spec_omit(old(self).model(), tokens@, i as int),
            i < r <= tokens@.len(),
            final(self).open_parent_count == old(self).open_parent_count,
            frame(*old(self), *final(self)),
    {
        let token = tokens[i];
        if self.open_parent_count > 0 {
            self.context = Context::start_group(GroupKind::Omit);
        }
        if Self::number_at(tokens, i + 1, 5) {
            self.push_exp(Exp::Omit(OmitExp::new(Interval::PerfectFifth, token.pos + token.len)));
            return i + 2;
        }
        if Self::number_at(tokens, i + 1, 3) {
            self.push_exp(Exp::Omit(OmitExp::new(Interval::MajorThird, token.pos + token.len)));
            return i + 2;
        }
        self.push_error(ParserError::IllegalOrMissingOmitTarget((token.pos, token.len)));
        i + 1
    }

    /// `sus` at `i`.
    fn sus(&mut self, tokens: &Vec<Token>, i: usize)
        requires
            i < tokens@.len(),
            tokens@.len() + 3 <= usize::MAX,
        ensures
            final(self).model() == spec_sus(old(self).model(), tokens@, i as int),
            final(self).open_parent_count == old(self).open_parent_count,
            frame(*old(self), *final(self)),
    {
        self.context = Context::Sus;
        let waits = i + 1 < tokens.len() && match tokens[i + 1].token_type {
            TokenType::Extension(_) | TokenType::Sharp | TokenType::Flat => true,
            _ => false,
        };
        if !waits {
            self.push_exp(Exp::Sus(SusExp::new(Interval::PerfectFourth)));
            self.context = Context::Normal;
        }
    }

    /// A closing parenthesis outside any group.
    fn rparen(&mut self, pos: usize)
        requires
            old(self).open_parent_count > i128::MIN,
        ensures
            final(self).model() == (PState {
                open: old(self).model().open - 1,
                ctx: Context::Normal,
                ..(if old(self).model().open != 1 {
                    PState {
                        errs: old(self).model().errs.push(ErrorView::UnexpectedClosingParenthesis(pos)),
                        ..old(self).model()
                    }
                } else {
                    old(self).model()
                })
            }),
            final(self).open_parent_count == old(self).open_parent_count - 1,
            frame(*old(self), *final(self)),
    {
        if self.open_parent_count != 1 {
            self.push_error(ParserError::UnexpectedClosingParenthesis(pos));
        }
        self.context = Context::Normal;
        self.open_parent_count = self.open_parent_count - 1;
    }

    /// The end of a slash part: the input must end at `j`.
    fn slash_end(&mut self, tokens: &Vec<Token>, j: usize, fallback: usize)
        ensures
            (final(self).model(), j as int) == spec_slash_end(old(self).model(), tokens@, j as int, fallback),
            final(self).open_parent_count == old(self).open_parent_count,
            frame(*old(self), *final(self)),
    {
        if !(j < tokens.len() && tokens[j].token_type == TokenType::Eof) {
            let p = if j < tokens.len() { tokens[j].pos } else { fallback };
            self.push_error(ParserError::IllegalSlashNotation(p));
        }
    }

    /// A slash at `i`.
    fn slash(&mut self, tokens: &Vec<Token>, i: usize) -> (r: usize)
        requires
            i < tokens@.len(),
            tokens@.len() < usize::MAX - 2,
        ensures
            (final(self).model(), r as int) == spec_slash(old(self).model(), tokens@, i as int),
            i < r <= tokens@.len(),
            final(self).open_parent_count == old(self).open_parent_count,
            frame(*old(self), *final(self)),
    {
        let token = tokens[i];
        if i + 1 >= tokens.len() {
            self.push_error(ParserError::IllegalSlashNotation(token.pos));
            self.slash_end(tokens, i + 1, token.pos);
            return i + 1;
        }
        let next_pos = if i + 2 < tokens.len() { tokens[i + 2].pos } else { token.pos };
        match tokens[i + 1].token_type {
            TokenType::Extension(a) => {
                if a == 9 {
                    self.push_exp(Exp::Add(AddExp::new(Interval::Ninth, tokens[i + 1].pos)));
                } else {
                    self.push_error(ParserError::IllegalSlashNotation(next_pos));
                }
                self.slash_end(tokens, i + 2, token.pos);
                i + 2
            },
            TokenType::Note(n) => {
                let (m, j) = Self::match_modifier(tokens, i + 2);
                self.push_exp(Exp::SlashBass(SlashBassExp::new(Note::new(n, m))));
                self.slash_end(tokens, j, token.pos);
                j
            },
            _ => {
                self.push_error(ParserError::IllegalSlashNotation(next_pos));
                self.slash_end(tokens, i + 2, token.pos);
                i + 2
            },
        }
    }
}

impl Default for Parser {
    fn default() -> (r: Parser)
        ensures
            r.is_reset(),
    {
        Parser::new()
    }
}

/// A root read from the tokens can spell the notes of any chord.
proof fn lemma_root_spellable(root: Note)
    requires
        root.modifier matches Some(m) ==> (m.0 == 1 || m.0 == -1),
    ensures
        crate::parsing::evaluator::spellable_root(root),
{
}

} // verus!
