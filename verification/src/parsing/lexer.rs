//! Splits a chord symbol into tokens.
use crate::parsing::token::{
    is_note_letter, lemma_letter_token, lemma_token_word_len, letter_note, spec_token_from, token_from_chars, chars_of, Token,
    TokenType,
};
use vstd::prelude::*;

verus! {

/// Number of bytes of a character in UTF-8.
pub open spec fn spec_char_len(c: char) -> int {
    let v = c as int;
    if v < 0x80 { 1 } else if v < 0x800 { 2 } else if v < 0x10000 { 3 } else { 4 }
}

/// Number of bytes of a character in UTF-8.
pub fn char_len(c: char) -> (r: usize)
    ensures
        r == spec_char_len(c),
{
    let v = c as u32;
    if v < 0x80 { 1 } else if v < 0x800 { 2 } else if v < 0x10000 { 3 } else { 4 }
}

pub open spec fn is_digit(c: char) -> bool {
    '0' <= c <= '9'
}

pub open spec fn is_alpha(c: char) -> bool {
    ('a' <= c <= 'z') || ('A' <= c <= 'Z')
}

/// The token of a character that stands alone.
pub open spec fn single_token(c: char) -> Option<TokenType> {
    if c == '#' || c == '♯' { Some(TokenType::Sharp) }
    else if c == '♭' { Some(TokenType::Flat) }
    else if c == '△' || c == '^' || c == 'Δ' { Some(TokenType::Maj7) }
    else if c == '-' { Some(TokenType::Hyphen) }
    else if c == '°' { Some(TokenType::Dim) }
    else if c == 'ø' { Some(TokenType::HalfDim) }
    else if c == '/' { Some(TokenType::Slash) }
    else if c == '+' { Some(TokenType::Aug) }
    else if c == ',' { Some(TokenType::Comma) }
    else if c == '(' { Some(TokenType::LParent) }
    else if c == ')' { Some(TokenType::RParent) }
    else { None }
}

/// End of the run of characters satisfying `digits ? is_digit : is_alpha` from `i`.
pub open spec fn run_end(s: Seq<char>, i: int, digits: bool) -> int
    decreases s.len() - i,
{
    if i >= s.len() {
        i
    } else if (digits && is_digit(s[i])) || (!digits && is_alpha(s[i])) {
        run_end(s, i + 1, digits)
    } else {
        i
    }
}

/// Value of a one- or two-digit extension number that the lexer accepts (2..7, 9, 11, 13).
pub open spec fn one_digit_extension(c: char) -> Option<u8> {
    if c == '2' { Some(2u8) }
    else if c == '3' { Some(3u8) }
    else if c == '4' { Some(4u8) }
    else if c == '5' { Some(5u8) }
    else if c == '6' { Some(6u8) }
    else if c == '7' { Some(7u8) }
    else if c == '9' { Some(9u8) }
    else { None }
}

pub open spec fn two_digit_extension(a: char, b: char) -> Option<u8> {
    if a == '1' && b == '1' { Some(11u8) }
    else if a == '1' && b == '3' { Some(13u8) }
    else { None }
}

/// Reads a run of digits from `start`: each step takes the longest extension number there,
/// or records an illegal position. Gives the extension tokens and the illegal positions, in order.
pub open spec fn number_scan(d: Seq<char>, start: int, pos: int) -> (Seq<Token>, Seq<int>)
    decreases d.len() - start,
{
    if start >= d.len() {
        (Seq::empty(), Seq::empty())
    } else if start + 2 <= d.len() && two_digit_extension(d[start], d[start + 1]) is Some {
        let r = number_scan(d, start + 2, pos);
        (seq![Token { token_type: TokenType::Extension(two_digit_extension(d[start], d[start + 1])->0), pos: (pos + start) as usize, len: 2 }] + r.0, r.1)
    } else if one_digit_extension(d[start]) is Some {
        let r = number_scan(d, start + 1, pos);
        (seq![Token { token_type: TokenType::Extension(one_digit_extension(d[start])->0), pos: (pos + start) as usize, len: 1 }] + r.0, r.1)
    } else {
        let r = number_scan(d, start + 1, pos);
        (r.0, seq![pos + start] + r.1)
    }
}

pub open spec fn illegal_at(p: int) -> Token {
    Token { token_type: TokenType::Illegal, pos: p as usize, len: 1 }
}

/// The tokens of a run of digits: the extensions, then an illegal token for each position that
/// starts none, latest first.
pub open spec fn number_tokens(d: Seq<char>, pos: int) -> Seq<Token> {
    let r = number_scan(d, 0, pos);
    r.0 + r.1.reverse().map_values(|p: int| illegal_at(p))
}

/// The end of the longest word starting at `start` and ending at or before `e` that is a token.
pub open spec fn longest_match(w: Seq<char>, start: int, e: int) -> Option<int>
    decreases e - start,
{
    if e <= start {
        None
    } else if spec_token_from(w.subrange(start, e)) is Some {
        Some(e)
    } else {
        longest_match(w, start, e - 1)
    }
}

/// The tokens of a run of letters: from the left, the longest word that is a token, or an
/// illegal token for a single letter.
pub open spec fn word_tokens(w: Seq<char>, start: int, pos: int) -> Seq<Token>
    decreases w.len() - start, 1int,
{
    if start >= w.len() {
        Seq::empty()
    } else {
        match longest_match(w, start, w.len() as int) {
            Some(e) => if start < e <= w.len() {
                seq![Token { token_type: spec_token_from(w.subrange(start, e))->0, pos: (pos + start) as usize, len: (e - start) as usize }]
                    + word_tokens(w, e, pos)
            } else {
                Seq::empty()
            },
            None => seq![illegal_at(pos + start)] + word_tokens(w, start + 1, pos),
        }
    }
}

/// The tokens of `s` from character `i`, which starts at byte `b`.
pub open spec fn lex_from(s: Seq<char>, i: int, b: int) -> Seq<Token>
    decreases s.len() - i,
{
    if i >= s.len() || i < 0 {
        seq![Token { token_type: TokenType::Eof, pos: (b + 1) as usize, len: 0 }]
    } else {
        let c = s[i];
        let l = spec_char_len(c);
        if c == ' ' {
            lex_from(s, i + 1, b + 1)
        } else if single_token(c) is Some {
            seq![Token { token_type: single_token(c)->0, pos: (b + l) as usize, len: 1 }] + lex_from(s, i + 1, b + l)
        } else if is_digit(c) {
            let j = run_end(s, i, true);
            if i < j <= s.len() {
                number_tokens(s.subrange(i, j), b) + lex_from(s, j, b + (j - i))
            } else {
                Seq::empty()
            }
        } else if is_alpha(c) {
            let j = run_end(s, i, false);
            if i < j <= s.len() {
                word_tokens(s.subrange(i, j), 0, b) + lex_from(s, j, b + (j - i))
            } else {
                Seq::empty()
            }
        } else {
            seq![Token { token_type: TokenType::Illegal, pos: b as usize, len: l as usize }] + lex_from(s, i + 1, b + l)
        }
    }
}

/// The tokens of a chord symbol, ending with an end-of-input token.
pub open spec fn spec_lex(s: Seq<char>) -> Seq<Token> {
    lex_from(s, 0, 0)
}

/// The number of UTF-8 bytes of the first `i` characters.
pub open spec fn byte_offset(s: Seq<char>, i: int) -> int
    decreases i,
{
    if i <= 0 {
        0
    } else {
        byte_offset(s, i - 1) + spec_char_len(s[i - 1])
    }
}

/// The lexer reads accidental signs by their direction: wherever it meets a `#` or `♯` in any
/// input it gives a sharp token, and wherever it meets a `♭` a flat token.
pub proof fn lemma_sign_tokens(s: Seq<char>, i: int, b: int)
    requires
        0 <= i < s.len(),
    ensures
        (s[i] == '#' || s[i] == '♯') ==> lex_from(s, i, b)[0].token_type == TokenType::Sharp,
        s[i] == '♭' ==> lex_from(s, i, b)[0].token_type == TokenType::Flat,
{
}

/// A chord symbol that starts with a note letter and an accidental sign starts with that
/// note's token and then the sign's token: a sharp for `#` or `♯`, a flat for `♭`.
pub proof fn lemma_lex_signed_root(s: Seq<char>)
    requires
        s.len() >= 2,
        is_note_letter(s[0]),
        s[1] == '#' || s[1] == '♯' || s[1] == '♭',
    ensures
        spec_lex(s).len() >= 2,
        spec_lex(s)[0].token_type == TokenType::Note(letter_note(s[0])),
        spec_lex(s)[1].token_type == if s[1] == '♭' { TokenType::Flat } else { TokenType::Sharp },
{
    assert(run_end(s, 1, false) == 1);
    assert(run_end(s, 0, false) == 1);
    let w = s.subrange(0, 1);
    assert(w =~= seq![s[0]]);
    lemma_letter_token(s[0]);
    assert(w.subrange(0, 1) =~= w);
    assert(longest_match(w, 0, 1) == Some(1int));
    let first = word_tokens(w, 0, 0);
    assert(first == seq![Token { token_type: TokenType::Note(letter_note(s[0])), pos: 0usize, len: 1usize }]
        + word_tokens(w, 1, 0));
    assert(first.len() == 1);
    let rest = lex_from(s, 1, 1);
    lemma_sign_tokens(s, 1, 1);
    assert(spec_lex(s) == first + rest);
}

/// A note letter followed by an accidental sign, anywhere in a chord symbol, is read as the
/// note's token and then the sign's token: a sharp for `#` or `♯`, a flat for `♭`.
pub proof fn lemma_lex_signed_note(s: Seq<char>, i: int, b: int)
    requires
        0 <= i,
        i + 2 <= s.len(),
        is_note_letter(s[i]),
        s[i + 1] == '#' || s[i + 1] == '♯' || s[i + 1] == '♭',
    ensures
        lex_from(s, i, b).len() >= 2,
        lex_from(s, i, b)[0].token_type == TokenType::Note(letter_note(s[i])),
        lex_from(s, i, b)[1].token_type == if s[i + 1] == '♭' { TokenType::Flat } else { TokenType::Sharp },
{
    assert(run_end(s, i + 1, false) == i + 1);
    assert(run_end(s, i, false) == i + 1);
    let w = s.subrange(i, i + 1);
    assert(w =~= seq![s[i]]);
    lemma_letter_token(s[i]);
    assert(w.subrange(0, 1) =~= w);
    assert(longest_match(w, 0, 1) == Some(1int));
    let first = word_tokens(w, 0, b);
    assert(first == seq![Token { token_type: TokenType::Note(letter_note(s[i])), pos: b as usize, len: 1usize }]
        + word_tokens(w, 1, b));
    assert(first.len() == 1);
    let rest = lex_from(s, i + 1, b + 1);
    lemma_sign_tokens(s, i + 1, b + 1);
    assert(lex_from(s, i, b) == first + rest);
}

/// A slash followed by a note letter and an accidental sign, anywhere in a chord symbol, is
/// read as a slash token, the note's token and the sign's token.
pub proof fn lemma_lex_slash_bass(s: Seq<char>, i: int, b: int)
    requires
        0 <= i,
        i + 3 <= s.len(),
        s[i] == '/',
        is_note_letter(s[i + 1]),
        s[i + 2] == '#' || s[i + 2] == '♯' || s[i + 2] == '♭',
    ensures
        lex_from(s, i, b).len() >= 3,
        lex_from(s, i, b)[0].token_type == TokenType::Slash,
        lex_from(s, i, b)[1].token_type == TokenType::Note(letter_note(s[i + 1])),
        lex_from(s, i, b)[2].token_type == if s[i + 2] == '♭' { TokenType::Flat } else { TokenType::Sharp },
{
    lemma_lex_signed_note(s, i + 1, b + 1);
    assert(lex_from(s, i, b) == seq![Token { token_type: TokenType::Slash, pos: (b + 1) as usize, len: 1usize }]
        + lex_from(s, i + 1, b + 1));
}

pub proof fn lemma_run_end(s: Seq<char>, i: int, digits: bool)
    requires
        0 <= i <= s.len(),
    ensures
        i <= run_end(s, i, digits) <= s.len(),
        forall|k: int| i <= k < run_end(s, i, digits) ==> if digits { is_digit(s[k]) } else { is_alpha(s[k]) },
        run_end(s, i, digits) < s.len() ==> !(if digits { is_digit(s[run_end(s, i, digits)]) } else { is_alpha(s[run_end(s, i, digits)]) }),
    decreases s.len() - i,
{
    if i < s.len() && ((digits && is_digit(s[i])) || (!digits && is_alpha(s[i]))) {
        lemma_run_end(s, i + 1, digits);
    }
}

/// A copy of `s[i..j]`.
fn copy_range(s: &Vec<char>, i: usize, j: usize) -> (r: Vec<char>)
    requires
        i <= j <= s@.len(),
    ensures
        r@ == s@.subrange(i as int, j as int),
{
    let mut r: Vec<char> = Vec::new();
    let mut k = i;
    while k < j
        invariant
            i <= k <= j <= s@.len(),
            r@ == s@.subrange(i as int, k as int),
        decreases j - k,
    {
        r.push(s[k]);
        assert(r@ =~= s@.subrange(i as int, k + 1));
        k = k + 1;
    }
    r
}

pub proof fn lemma_longest_match(w: Seq<char>, start: int, e: int)
    ensures
        longest_match(w, start, e) matches Some(k) ==> start < k <= e && spec_token_from(w.subrange(start, k)) is Some,
    decreases e - start,
{
    if e > start && !(spec_token_from(w.subrange(start, e)) is Some) {
        lemma_longest_match(w, start, e - 1);
    }
}

/// Splits chord symbols into tokens. Positions are byte offsets: a standalone symbol is placed
/// just after itself, a word or number at its first character, the end of input one past the end.
pub struct Lexer {
    current: usize,
    input_len: usize,
}

impl Lexer {
    pub fn new() -> (r: Lexer)
        ensures
            r.is_reset(),
    {
        Lexer { input_len: 0, current: 0 }
    }

    /// Whether the lexer is ready for a new input.
    pub closed spec fn is_reset(&self) -> bool {
        self.current == 0 && self.input_len == 0
    }

    /// Whether a digit string is one of the extensions 2..7, 9, 11, 13.
    fn is_valid_extension(d: &Vec<char>, start: usize, end: usize) -> (r: Option<u8>)
        requires
            start < end <= d@.len(),
            end - start <= 2,
        ensures
            r == (if end - start == 2 { two_digit_extension(d@[start as int], d@[start + 1]) } else { one_digit_extension(d@[start as int]) }),
    {
        if end - start == 2 {
            let a = d[start];
            let b = d[start + 1];
            if a == '1' && b == '1' { Some(11) } else if a == '1' && b == '3' { Some(13) } else { None }
        } else {
            let c = d[start];
            if c == '2' { Some(2) }
            else if c == '3' { Some(3) }
            else if c == '4' { Some(4) }
            else if c == '5' { Some(5) }
            else if c == '6' { Some(6) }
            else if c == '7' { Some(7) }
            else if c == '9' { Some(9) }
            else { None }
        }
    }

    /// Appends the tokens of the digit run `s[i..j]`, which starts at byte `pos`.
    #[verifier::spinoff_prover]
    fn parse_number(s: &Vec<char>, i: usize, j: usize, pos: usize, tokens: &mut Vec<Token>)
        requires
            i < j <= s@.len(),
            pos + (j - i) < usize::MAX,
        ensures
            final(tokens)@ == old(tokens)@ + number_tokens(s@.subrange(i as int, j as int), pos as int),
            forall|k: int| old(tokens)@.len() <= k < final(tokens)@.len() ==> pos <= #[trigger] final(tokens)@[k].pos
                < pos + (j - i) && final(tokens)@[k].len <= 2,
            final(tokens)@.len() <= old(tokens)@.len() + (j - i),
    {
        let ghost d = s@.subrange(i as int, j as int);
        let mut start: usize = 0;
        let n = j - i;
        let mut errors: Vec<usize> = Vec::new();
        let ghost base = tokens@;
        while start < n
            invariant
                i < j <= s@.len(),
                n == j - i,
                d == s@.subrange(i as int, j as int),
                start <= n,
                pos + n < usize::MAX,
                (tokens@.subrange(base.len() as int, tokens@.len() as int) + number_scan(d, start as int, pos as int).0,
                    errors@.map_values(|p: usize| p as int) + number_scan(d, start as int, pos as int).1) == number_scan(d, 0, pos as int),
                tokens@.len() >= base.len(),
                tokens@.subrange(0, base.len() as int) == base,
                base == old(tokens)@,
                forall|k: int| base.len() <= k < tokens@.len() ==> pos <= #[trigger] tokens@[k].pos < pos + n
                    && tokens@[k].len <= 2,
                forall|k: int| 0 <= k < errors@.len() ==> pos <= #[trigger] errors@[k] < pos + n,
                tokens@.len() - base.len() + errors@.len() <= start,
            decreases n - start,
        {
            let ghost before = tokens@;
            let ghost before_err = errors@;
            let two = if start + 2 <= n { Self::is_valid_extension(s, i + start, i + start + 2) } else { None };
            match two {
                Some(v) => {
                    tokens.push(Token::new(TokenType::Extension(v), pos + start, 2));
                    start = start + 2;
                },
                None => {
                    match Self::is_valid_extension(s, i + start, i + start + 1) {
                        Some(v) => {
                            tokens.push(Token::new(TokenType::Extension(v), pos + start, 1));
                            start = start + 1;
                        },
                        None => {
                            errors.push(pos + start);
                            start = start + 1;
                        },
                    }
                },
            }
            proof {
                assert forall|k: int| base.len() <= k < tokens@.len() implies pos <= #[trigger] tokens@[k].pos < pos + n
                    && tokens@[k].len <= 2 by {
                    if k < before.len() {
                        assert(tokens@[k] == before[k]);
                    }
                }
                assert forall|k: int| 0 <= k < errors@.len() implies pos <= #[trigger] errors@[k] < pos + n by {
                    if k < before_err.len() {
                        assert(errors@[k] == before_err[k]);
                    }
                }
                assert(tokens@.subrange(0, base.len() as int) =~= base);
                if tokens@.len() > before.len() {
                    assert(tokens@.subrange(base.len() as int, tokens@.len() as int) =~= before.subrange(base.len() as int, before.len() as int).push(tokens@.last()));
                } else {
                    assert(errors@.map_values(|p: usize| p as int) =~= before_err.map_values(|p: usize| p as int).push(errors@.last() as int));
                }
            }
        }
        let ghost exts = tokens@.subrange(base.len() as int, tokens@.len() as int);
        let ghost errs = errors@.map_values(|p: usize| p as int);
        assert(exts =~= number_scan(d, 0, pos as int).0);
        assert(errs =~= number_scan(d, 0, pos as int).1);
        let ghost mid = tokens@;
        let mut k = errors.len();
        while k > 0
            invariant
                k <= errors@.len(),
                errs == errors@.map_values(|p: usize| p as int),
                tokens@ == mid + errs.reverse().map_values(|p: int| illegal_at(p)).take((errors@.len() - k) as int),
                mid.len() >= old(tokens)@.len(),
                mid.len() - old(tokens)@.len() + errors@.len() <= n,
                forall|k: int| old(tokens)@.len() <= k < tokens@.len() ==> pos <= #[trigger] tokens@[k].pos < pos + n
                    && tokens@[k].len <= 2,
                forall|k: int| 0 <= k < errors@.len() ==> pos <= #[trigger] errors@[k] < pos + n,
            decreases k,
        {
            k = k - 1;
            tokens.push(Token::new(TokenType::Illegal, errors[k], 1));
            assert(errs.reverse().map_values(|p: int| illegal_at(p)).take((errors@.len() - k) as int)
                =~= errs.reverse().map_values(|p: int| illegal_at(p)).take((errors@.len() - k - 1) as int).push(illegal_at(errors@[k as int] as int)));
        }
        assert(errs.reverse().map_values(|p: int| illegal_at(p)).take(errors@.len() as int) =~= errs.reverse().map_values(|p: int| illegal_at(p)));
        assert(mid =~= base + exts);
        assert(tokens@ =~= base + number_tokens(d, pos as int));
    }

    /// The end of the longest token word in `w[start..e]` starting at `start`.
    fn longest_word(w: &Vec<char>, start: usize, end: usize) -> (r: Option<usize>)
        requires
            start <= end <= w@.len(),
        ensures
            r == (match longest_match(w@, start as int, end as int) {
                Some(e) => Some(e as usize),
                None => None::<usize>,
            }),
            r matches Some(e) ==> start < e <= end,
        decreases end - start,
    {
        let mut e = end;
        while e > start
            invariant
                start <= e <= end <= w@.len(),
                longest_match(w@, start as int, end as int) == longest_match(w@, start as int, e as int),
            decreases e - start,
        {
            if token_from_chars(w, start, e).is_some() {
                return Some(e);
            }
            e = e - 1;
        }
        None
    }

    /// Appends the tokens of the letter run `s[i..j]`, which starts at byte `pos`.
    fn parse_string(s: &Vec<char>, i: usize, j: usize, pos: usize, tokens: &mut Vec<Token>)
        requires
            i < j <= s@.len(),
            pos + (j - i) < usize::MAX,
        ensures
            final(tokens)@ == old(tokens)@ + word_tokens(s@.subrange(i as int, j as int), 0, pos as int),
            forall|k: int| old(tokens)@.len() <= k < final(tokens)@.len() ==> pos <= #[trigger] final(tokens)@[k].pos
                < pos + (j - i) && final(tokens)@[k].len <= 10,
            final(tokens)@.len() <= old(tokens)@.len() + (j - i),
    {
        let w = copy_range(s, i, j);
        let mut start: usize = 0;
        let n = j - i;
        let ghost base = tokens@;
        while start < n
            invariant
                n == w@.len(),
                w@ == s@.subrange(i as int, j as int),
                start <= n,
                pos + n < usize::MAX,
                tokens@ + word_tokens(w@, start as int, pos as int) == base + word_tokens(w@, 0, pos as int),
                base == old(tokens)@,
                tokens@.len() >= base.len(),
                forall|k: int| base.len() <= k < tokens@.len() ==> pos <= #[trigger] tokens@[k].pos < pos + n
                    && tokens@[k].len <= 10,
                tokens@.len() <= base.len() + start,
            decreases n - start,
        {
            match Self::longest_word(&w, start, n) {
                Some(e) => {
                    proof {
                        lemma_longest_match(w@, start as int, n as int);
                        lemma_token_word_len(w@.subrange(start as int, e as int));
                    }
                    let t = token_from_chars(&w, start, e);
                    match t {
                        Some(tt) => tokens.push(Token::new(tt, pos + start, e - start)),
                        None => {},
                    }
                    assert(tokens@ + word_tokens(w@, e as int, pos as int) =~= base + word_tokens(w@, 0, pos as int));
                    start = e;
                },
                None => {
                    tokens.push(Token::new(TokenType::Illegal, pos + start, 1));
                    assert(tokens@ + word_tokens(w@, start + 1, pos as int) =~= base + word_tokens(w@, 0, pos as int));
                    start = start + 1;
                },
            }
        }
        assert(tokens@ =~= base + word_tokens(w@, 0, pos as int));
    }

    /// Splits a chord symbol into tokens, ending with an end-of-input token.
    #[verifier::rlimit(40)]
    #[verifier::spinoff_prover]
    pub fn scan_tokens(&mut self, source: &str) -> (r: Vec<Token>)
        requires
            source@.len() * 4 + 2 < usize::MAX,
        ensures
            r@ == spec_lex(source@),
            forall|k: int| 0 <= k < r@.len() ==> #[trigger] r@[k].pos <= 4 * source@.len() + 1 && r@[k].len <= 10,
            r@.len() <= source@.len() + 1,
            final(self).is_reset(),
    {
        let s = chars_of(source);
        let n = s.len();
        self.input_len = n;
        let mut tokens: Vec<Token> = Vec::new();
        let mut i: usize = 0;
        let mut b: usize = 0;
        while i < n
            invariant
                n == s@.len(),
                s@ == source@,
                i <= n,
                b <= 4 * i,
                n * 4 + 2 < usize::MAX,
                tokens@ + lex_from(s@, i as int, b as int) == spec_lex(s@),
                forall|k: int| 0 <= k < tokens@.len() ==> #[trigger] tokens@[k].pos <= 4 * n && tokens@[k].len <= 10,
                tokens@.len() <= i,
            decreases n - i,
        {
            let c = s[i];
            let l = char_len(c);
            if c == ' ' {
                i = i + 1;
                b = b + 1;
            } else if c == '#' || c == '♯' || c == '♭' || c == '△' || c == '^' || c == 'Δ' || c == '-' || c == '°'
                || c == 'ø' || c == '/' || c == '+' || c == ',' || c == '(' || c == ')' {
                let tt = if c == '#' || c == '♯' { TokenType::Sharp }
                    else if c == '♭' { TokenType::Flat }
                    else if c == '△' || c == '^' || c == 'Δ' { TokenType::Maj7 }
                    else if c == '-' { TokenType::Hyphen }
                    else if c == '°' { TokenType::Dim }
                    else if c == 'ø' { TokenType::HalfDim }
                    else if c == '/' { TokenType::Slash }
                    else if c == '+' { TokenType::Aug }
                    else if c == ',' { TokenType::Comma }
                    else if c == '(' { TokenType::LParent }
                    else { TokenType::RParent };
                let ghost old_tokens = tokens@;
                tokens.push(Token::new(tt, b + l, 1));
                assert(forall|k: int| 0 <= k < old_tokens.len() ==> tokens@[k] == old_tokens[k]);
                assert(tokens@ + lex_from(s@, i + 1, (b + l) as int) =~= spec_lex(s@));
                assert forall|k: int| 0 <= k < tokens@.len() implies #[trigger] tokens@[k].pos <= 4 * n && tokens@[k].len
                    <= 10 by {
                    if k < old_tokens.len() {
                        assert(tokens@[k] == old_tokens[k]);
                    }
                }
                i = i + 1;
                b = b + l;
            } else if '0' <= c && c <= '9' {
                let mut j = i;
                while j < n && '0' <= s[j] && s[j] <= '9'
                    invariant
                        i <= j <= n,
                        n == s@.len(),
                        run_end(s@, i as int, true) == run_end(s@, j as int, true),
                    decreases n - j,
                {
                    j = j + 1;
                }
                proof {
                    lemma_run_end(s@, i as int, true);
                }
                let ghost old_tokens = tokens@;
                Self::parse_number(&s, i, j, b, &mut tokens);
                assert(forall|k: int| 0 <= k < old_tokens.len() ==> tokens@[k] == old_tokens[k]);
                assert(tokens@ + lex_from(s@, j as int, (b + (j - i)) as int) =~= spec_lex(s@));
                assert forall|k: int| 0 <= k < tokens@.len() implies #[trigger] tokens@[k].pos <= 4 * n && tokens@[k].len
                    <= 10 by {
                    if k < old_tokens.len() {
                        assert(tokens@[k] == old_tokens[k]);
                    }
                }
                b = b + (j - i);
                i = j;
            } else if ('a' <= c && c <= 'z') || ('A' <= c && c <= 'Z') {
                let mut j = i;
                while j < n && (('a' <= s[j] && s[j] <= 'z') || ('A' <= s[j] && s[j] <= 'Z'))
                    invariant
                        i <= j <= n,
                        n == s@.len(),
                        run_end(s@, i as int, false) == run_end(s@, j as int, false),
                    decreases n - j,
                {
                    j = j + 1;
                }
                proof {
                    lemma_run_end(s@, i as int, false);
                }
                let ghost old_tokens = tokens@;
                Self::parse_string(&s, i, j, b, &mut tokens);
                assert(forall|k: int| 0 <= k < old_tokens.len() ==> tokens@[k] == old_tokens[k]);
                assert(tokens@ + lex_from(s@, j as int, (b + (j - i)) as int) =~= spec_lex(s@));
                assert forall|k: int| 0 <= k < tokens@.len() implies #[trigger] tokens@[k].pos <= 4 * n && tokens@[k].len
                    <= 10 by {
                    if k < old_tokens.len() {
                        assert(tokens@[k] == old_tokens[k]);
                    }
                }
                b = b + (j - i);
                i = j;
            } else {
                let ghost old_tokens = tokens@;
                tokens.push(Token::new(TokenType::Illegal, b, l));
                assert(forall|k: int| 0 <= k < old_tokens.len() ==> tokens@[k] == old_tokens[k]);
                assert(tokens@ + lex_from(s@, i + 1, (b + l) as int) =~= spec_lex(s@));
                assert forall|k: int| 0 <= k < tokens@.len() implies #[trigger] tokens@[k].pos <= 4 * n && tokens@[k].len
                    <= 10 by {
                    if k < old_tokens.len() {
                        assert(tokens@[k] == old_tokens[k]);
                    }
                }
                i = i + 1;
                b = b + l;
            }
        }
        tokens.push(Token::new(TokenType::Eof, b + 1, 0));
        assert(tokens@ =~= spec_lex(s@));
        self.current = 0;
        self.input_len = 0;
        tokens
    }
}

impl Default for Lexer {
    fn default() -> (r: Lexer)
        ensures
            r.is_reset(),
    {
        Lexer::new()
    }
}

} // verus!
