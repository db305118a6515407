//! Errors reported when a chord symbol cannot be parsed.
//!
//! Positions are 1-based byte positions in the input, as the lexer gives them.
use crate::parsing::lexer::{byte_offset, char_len, spec_char_len};
use crate::text::{decimal, push_decimal};
use vstd::prelude::*;

verus! {

/// Errors that can occur when parsing a chord, each with the position in the input where it
/// was found, when there is one.
#[derive(Debug, PartialEq, Eq)]
pub enum ParserError {
    IllegalToken(usize),
    UnexpectedNote(usize),
    DuplicateModifier(String),
    InconsistentExtension(String),
    DuplicateExtension(usize),
    InvalidExtension(usize),
    WrongExpressionTarget(usize),
    UnexpectedModifier(usize),
    MissingRootNote,
    ThreeConsecutiveSemitones(Vec<String>),
    MissingAddTarget((usize, usize)),
    IllegalOrMissingOmitTarget((usize, usize)),
    IllegalAddTarget((usize, usize)),
    IllegalSlashNotation(usize),
    UnexpectedClosingParenthesis(usize),
    MissingClosingParenthesis(usize),
    NestedParenthesis(usize),
}

/// A parser error with its texts as character sequences.
pub enum ErrorView {
    IllegalToken(usize),
    UnexpectedNote(usize),
    DuplicateModifier(Seq<char>),
    InconsistentExtension(Seq<char>),
    DuplicateExtension(usize),
    InvalidExtension(usize),
    WrongExpressionTarget(usize),
    UnexpectedModifier(usize),
    MissingRootNote,
    ThreeConsecutiveSemitones(Seq<Seq<char>>),
    MissingAddTarget(usize, usize),
    IllegalOrMissingOmitTarget(usize, usize),
    IllegalAddTarget(usize, usize),
    IllegalSlashNotation(usize),
    UnexpectedClosingParenthesis(usize),
    MissingClosingParenthesis(usize),
    NestedParenthesis(usize),
}

impl View for ParserError {
    type V = ErrorView;

    open spec fn view(&self) -> ErrorView {
        match self {
            ParserError::IllegalToken(p) => ErrorView::IllegalToken(*p),
            ParserError::UnexpectedNote(p) => ErrorView::UnexpectedNote(*p),
            ParserError::DuplicateModifier(s) => ErrorView::DuplicateModifier(s@),
            ParserError::InconsistentExtension(s) => ErrorView::InconsistentExtension(s@),
            ParserError::DuplicateExtension(p) => ErrorView::DuplicateExtension(*p),
            ParserError::InvalidExtension(p) => ErrorView::InvalidExtension(*p),
            ParserError::WrongExpressionTarget(p) => ErrorView::WrongExpressionTarget(*p),
            ParserError::UnexpectedModifier(p) => ErrorView::UnexpectedModifier(*p),
            ParserError::MissingRootNote => ErrorView::MissingRootNote,
            ParserError::ThreeConsecutiveSemitones(v) => ErrorView::ThreeConsecutiveSemitones(
                v@.map_values(|s: String| s@),
            ),
            ParserError::MissingAddTarget(t) => ErrorView::MissingAddTarget(t.0, t.1),
            ParserError::IllegalOrMissingOmitTarget(t) => ErrorView::IllegalOrMissingOmitTarget(t.0, t.1),
            ParserError::IllegalAddTarget(t) => ErrorView::IllegalAddTarget(t.0, t.1),
            ParserError::IllegalSlashNotation(p) => ErrorView::IllegalSlashNotation(*p),
            ParserError::UnexpectedClosingParenthesis(p) => ErrorView::UnexpectedClosingParenthesis(*p),
            ParserError::MissingClosingParenthesis(p) => ErrorView::MissingClosingParenthesis(*p),
            ParserError::NestedParenthesis(p) => ErrorView::NestedParenthesis(*p),
        }
    }
}

/// The views of a list of errors.
pub open spec fn errors_view(v: Seq<ParserError>) -> Seq<ErrorView> {
    v.map_values(|e: ParserError| e@)
}

/// Whether the position an error points at, a start plus a length for some, is a `usize`.
pub open spec fn position_fits(e: ErrorView) -> bool {
    match e {
        ErrorView::MissingAddTarget(p, l) => p + l <= usize::MAX,
        ErrorView::IllegalOrMissingOmitTarget(p, l) => p + l <= usize::MAX,
        ErrorView::IllegalAddTarget(p, l) => p + l <= usize::MAX,
        _ => true,
    }
}

/// The position an error points at, if it points at one.
pub open spec fn spec_error_position(e: ErrorView) -> Option<int> {
    match e {
        ErrorView::ThreeConsecutiveSemitones(_) | ErrorView::DuplicateModifier(_) | ErrorView::InconsistentExtension(
            _,
        ) => None,
        ErrorView::MissingRootNote => Some(1),
        ErrorView::MissingAddTarget(p, l) => Some(p + l),
        ErrorView::IllegalOrMissingOmitTarget(p, l) => Some(p + l),
        ErrorView::IllegalAddTarget(p, l) => Some(p + l),
        ErrorView::IllegalToken(p) => Some(p as int),
        ErrorView::UnexpectedNote(p) => Some(p as int),
        ErrorView::DuplicateExtension(p) => Some(p as int),
        ErrorView::InvalidExtension(p) => Some(p as int),
        ErrorView::WrongExpressionTarget(p) => Some(p as int),
        ErrorView::UnexpectedModifier(p) => Some(p as int),
        ErrorView::IllegalSlashNotation(p) => Some(p as int),
        ErrorView::UnexpectedClosingParenthesis(p) => Some(p as int),
        ErrorView::MissingClosingParenthesis(p) => Some(p as int),
        ErrorView::NestedParenthesis(p) => Some(p as int),
    }
}

/// The list `"a", "b"` of strings, each between double quotes.
pub open spec fn quoted_list(v: Seq<Seq<char>>) -> Seq<char>
    decreases v.len(),
{
    if v.len() == 0 {
        Seq::empty()
    } else if v.len() == 1 {
        "\""@ + v[0] + "\""@
    } else {
        quoted_list(v.drop_last()) + ", \""@ + v.last() + "\""@
    }
}

/// The message of an error.
pub open spec fn error_message(e: ErrorView) -> Seq<char> {
    match e {
        ErrorView::IllegalToken(p) => "Illegal token at position "@ + decimal(p as nat),
        ErrorView::UnexpectedNote(p) => "Unexpected note at position "@ + decimal(p as nat),
        ErrorView::DuplicateModifier(m) => "Duplicate modifier: "@ + m,
        ErrorView::InconsistentExtension(x) => "Inconsistent extension: "@ + x,
        ErrorView::DuplicateExtension(p) => "Duplicate extension at position "@ + decimal(p as nat),
        ErrorView::InvalidExtension(p) => "Invalid extension at position "@ + decimal(p as nat),
        ErrorView::WrongExpressionTarget(p) => "Invalid expression target at position: "@ + decimal(p as nat),
        ErrorView::UnexpectedModifier(p) => "Unexpected modifier at position "@ + decimal(p as nat),
        ErrorView::MissingRootNote => "Missing root note"@,
        ErrorView::ThreeConsecutiveSemitones(v) => "Three consecutive semitones: ["@ + quoted_list(v) + "]"@,
        ErrorView::MissingAddTarget(p, l) => "Missing add target at position "@ + decimal((p + l) as nat),
        ErrorView::IllegalOrMissingOmitTarget(p, l) => "Illegal or missing omit target at position "@ + decimal(
            (p + l) as nat,
        ),
        ErrorView::IllegalAddTarget(p, l) => "Illegal add target at position "@ + decimal((p + l) as nat),
        ErrorView::IllegalSlashNotation(p) => "Illegal slash notation at position "@ + decimal(p as nat),
        ErrorView::UnexpectedClosingParenthesis(p) => "Unexpected closing parenthesis at position "@ + decimal(
            p as nat,
        ),
        ErrorView::MissingClosingParenthesis(p) => "Missing closing parenthesis at position "@ + decimal(p as nat),
        ErrorView::NestedParenthesis(p) => "Nested parenthesis at position "@ + decimal(p as nat),
    }
}

/// Whether byte `b` of `s` starts a character (or is its end).
pub open spec fn at_boundary(s: Seq<char>, b: int) -> bool {
    exists|k: int| 0 <= k <= s.len() && byte_offset(s, k) == b
}

/// The character whose first byte is byte `b` of `s` (or the end).
pub open spec fn char_at_byte(s: Seq<char>, b: int) -> int {
    choose|k: int| 0 <= k <= s.len() && byte_offset(s, k) == b
}

/// Whether `s` can be marked at the 1-based position `pos`: past the end, or at a character
/// boundary where the character numbered like the byte ends at a boundary too.
pub open spec fn markable(s: Seq<char>, pos: int) -> bool {
    let idx = pos - 1;
    &&& pos >= 1
    &&& (idx >= byte_offset(s, s.len() as int) || (idx < s.len() && at_boundary(s, idx) && at_boundary(
        s,
        idx + spec_char_len(s[idx]),
    )))
}

/// `s` with its element at the 1-based position `pos` put between braces (the bytes before it,
/// the character numbered like that byte, the bytes after that character), or `s` followed by
/// empty braces when the position is past the end.
pub open spec fn marked(s: Seq<char>, pos: int) -> Seq<char> {
    let idx = pos - 1;
    if idx >= byte_offset(s, s.len() as int) {
        s + "{}"@
    } else {
        s.subrange(0, char_at_byte(s, idx)) + "{"@ + seq![s[idx]] + "}"@ + s.subrange(
            char_at_byte(s, idx + spec_char_len(s[idx])),
            s.len() as int,
        )
    }
}

/// The position an error's verbose display marks, if any: its own, or the end of its span.
pub open spec fn marked_position(e: ErrorView) -> Option<int> {
    match e {
        ErrorView::DuplicateModifier(_) | ErrorView::InconsistentExtension(_) | ErrorView::MissingRootNote
        | ErrorView::ThreeConsecutiveSemitones(_) => None,
        ErrorView::MissingAddTarget(p, l) => Some(p + l),
        ErrorView::IllegalOrMissingOmitTarget(p, l) => Some(p + l),
        ErrorView::IllegalAddTarget(p, l) => Some(p + l),
        ErrorView::IllegalToken(p) => Some(p as int),
        ErrorView::UnexpectedNote(p) => Some(p as int),
        ErrorView::DuplicateExtension(p) => Some(p as int),
        ErrorView::InvalidExtension(p) => Some(p as int),
        ErrorView::UnexpectedModifier(p) => Some(p as int),
        ErrorView::IllegalSlashNotation(p) => Some(p as int),
        ErrorView::UnexpectedClosingParenthesis(p) => Some(p as int),
        ErrorView::MissingClosingParenthesis(p) => Some(p as int),
        ErrorView::WrongExpressionTarget(p) => Some(p as int),
        ErrorView::NestedParenthesis(p) => Some(p as int),
    }
}

/// The verbose display of an error on its input: the message, and for errors at a position an
/// arrow and the input with that position marked.
pub open spec fn verbose_text(e: ErrorView, origin: Seq<char>) -> Seq<char> {
    match marked_position(e) {
        Some(p) => error_message(e) + " → "@ + marked(origin, p),
        None => error_message(e),
    }
}

/// Where the 1-based byte position `pos` of `s` can be marked: `Some(first, after)`, the
/// characters that start and end the marked one, or `None` when it is past the end.
fn mark_bounds(s: &str, pos: usize) -> (r: Option<(usize, usize)>)
    requires
        markable(s@, pos as int),
        s@.len() * 4 + 8 <= usize::MAX,
    ensures
        match r {
            None => pos - 1 >= byte_offset(s@, s@.len() as int),
            Some((a, b)) => {
                &&& pos - 1 < byte_offset(s@, s@.len() as int)
                &&& a == char_at_byte(s@, pos - 1)
                &&& b == char_at_byte(s@, pos - 1 + spec_char_len(s@[pos - 1]))
                &&& a <= b <= s@.len()
            },
        },
{
    let n = s.unicode_len();
    let idx = pos - 1;
    let mut b: usize = 0;
    let mut k: usize = 0;
    while k < n
        invariant
            n == s@.len(),
            k <= n,
            b == byte_offset(s@, k as int),
            b <= 4 * k,
            n * 4 + 8 <= usize::MAX,
        decreases n - k,
    {
        b = b + char_len(s.get_char(k));
        k = k + 1;
    }
    if idx >= b {
        return None;
    }
    let end = idx + char_len(s.get_char(idx));
    let mut first: usize = 0;
    let mut after: usize = 0;
    let mut b: usize = 0;
    let mut k: usize = 0;
    while k <= n
        invariant
            n == s@.len(),
            k <= n + 1,
            k <= n ==> b == byte_offset(s@, k as int),
            b <= 4 * k,
            n * 4 + 8 <= usize::MAX,
            forall|j: int| 0 <= j < k && byte_offset(s@, j) == idx ==> first == j,
            forall|j: int| 0 <= j < k && byte_offset(s@, j) == end ==> after == j,
        decreases n + 1 - k,
    {
        if b == idx {
            first = k;
        }
        if b == end {
            after = k;
        }
        proof {
            assert forall|j: int| 0 <= j < k && byte_offset(s@, j) == idx implies first == j by {
                lemma_byte_offset_mono(s@, j, k as int);
            }
            assert forall|j: int| 0 <= j < k && byte_offset(s@, j) == end implies after == j by {
                lemma_byte_offset_mono(s@, j, k as int);
            }
        }
        if k < n {
            b = b + char_len(s.get_char(k));
        }
        k = k + 1;
    }
    proof {
        let k0 = choose|k: int| 0 <= k <= s@.len() && byte_offset(s@, k) == idx;
        let k1 = choose|k: int| 0 <= k <= s@.len() && byte_offset(s@, k) == end;
        lemma_char_at_byte(s@, k0);
        lemma_char_at_byte(s@, k1);
        if k1 <= k0 {
            if k1 < k0 {
                lemma_byte_offset_mono(s@, k1, k0);
            }
        }
    }
    Some((first, after))
}

/// Byte offsets grow with the character count.
pub proof fn lemma_byte_offset_mono(s: Seq<char>, i: int, j: int)
    requires
        0 <= i < j <= s.len(),
    ensures
        byte_offset(s, i) < byte_offset(s, j),
    decreases j - i,
{
    if i < j - 1 {
        lemma_byte_offset_mono(s, i, j - 1);
    }
}

/// The character at the offset of character `k` is `k`.
pub proof fn lemma_char_at_byte(s: Seq<char>, k: int)
    requires
        0 <= k <= s.len(),
    ensures
        char_at_byte(s, byte_offset(s, k)) == k,
{
    let c = char_at_byte(s, byte_offset(s, k));
    assert(0 <= c <= s.len() && byte_offset(s, c) == byte_offset(s, k));
    if c < k {
        lemma_byte_offset_mono(s, c, k);
    } else if k < c {
        lemma_byte_offset_mono(s, k, c);
    }
}

fn push_text(s: &mut String, prefix: &str, p: usize)
    ensures
        final(s)@ == old(s)@ + prefix@ + decimal(p as nat),
{
    s.append(prefix);
    push_decimal(s, p);
}

impl ParserError {
    /// The position in the input where the error occurred, if it is tied to one.
    pub fn error_position(&self) -> (r: Option<usize>)
        requires
            position_fits(self@),
        ensures
            r == (match spec_error_position(self@) {
                Some(p) => Some(p as usize),
                None => None::<usize>,
            }),
    {
        match self {
            ParserError::ThreeConsecutiveSemitones(_) | ParserError::DuplicateModifier(_)
            | ParserError::InconsistentExtension(_) => None,
            ParserError::IllegalToken(pos) | ParserError::UnexpectedNote(pos) => Some(*pos),
            ParserError::DuplicateExtension(pos) | ParserError::InvalidExtension(pos) => Some(*pos),
            ParserError::UnexpectedModifier(pos) | ParserError::IllegalSlashNotation(pos) => Some(*pos),
            ParserError::UnexpectedClosingParenthesis(pos) | ParserError::NestedParenthesis(pos)
            | ParserError::WrongExpressionTarget(pos) | ParserError::MissingClosingParenthesis(pos) => Some(
                *pos,
            ),
            ParserError::MissingRootNote => Some(1),
            ParserError::IllegalAddTarget(t) | ParserError::IllegalOrMissingOmitTarget(t)
            | ParserError::MissingAddTarget(t) => Some(t.0 + t.1),
        }
    }

    /// The position the verbose display marks, if any.
    fn marked_position(&self) -> (r: Option<usize>)
        requires
            position_fits(self@),
        ensures
            r matches Some(p) ==> marked_position(self@) == Some(p as int),
            r is None ==> marked_position(self@) is None,
    {
        match self {
            ParserError::IllegalToken(pos) | ParserError::UnexpectedNote(pos) | ParserError::DuplicateExtension(pos)
            | ParserError::InvalidExtension(pos) | ParserError::UnexpectedModifier(pos)
            | ParserError::IllegalSlashNotation(pos) | ParserError::UnexpectedClosingParenthesis(pos)
            | ParserError::MissingClosingParenthesis(pos) | ParserError::WrongExpressionTarget(pos)
            | ParserError::NestedParenthesis(pos) => Some(*pos),
            ParserError::DuplicateModifier(_) | ParserError::InconsistentExtension(_) | ParserError::MissingRootNote
            | ParserError::ThreeConsecutiveSemitones(_) => None,
            ParserError::MissingAddTarget(t) | ParserError::IllegalOrMissingOmitTarget(t)
            | ParserError::IllegalAddTarget(t) => Some(t.0 + t.1),
        }
    }

    /// The message of the error, and for an error at a position, an arrow and the input with
    /// the element at that position between braces.
    pub fn verbose_display(&self, origin: &str) -> (r: String)
        requires
            position_fits(self@),
            origin@.len() * 4 + 8 <= usize::MAX,
            marked_position(self@) matches Some(p) ==> markable(origin@, p),
        ensures
            r@ == verbose_text(self@, origin@),
    {
        let mut res = self.to_string();
        match self.marked_position() {
            Some(p) => {
                res.append(" → ");
                let ghost head = res@;
                match mark_bounds(origin, p) {
                    None => {
                        res.append(origin);
                        res.append("{}");
                    },
                    Some((a, b)) => {
                        let n = origin.unicode_len();
                        res.append(origin.substring_char(0, a));
                        res.append("{");
                        res.append(origin.substring_char(p - 1, p));
                        res.append("}");
                        res.append(origin.substring_char(b, n));
                        proof {
                            reveal_strlit("{");
                            reveal_strlit("}");
                            assert(origin@.subrange(p - 1, p as int) =~= seq![origin@[p - 1]]);
                        }
                    },
                }
                assert(res@ =~= head + marked(origin@, p as int));
            },
            None => {},
        }
        res
    }

    /// The message of the error.
    pub fn to_string(&self) -> (r: String)
        requires
            position_fits(self@),
        ensures
            r@ == error_message(self@),
    {
        let mut s = String::new();
        match self {
            ParserError::IllegalToken(p) => push_text(&mut s, "Illegal token at position ", *p),
            ParserError::UnexpectedNote(p) => push_text(&mut s, "Unexpected note at position ", *p),
            ParserError::DuplicateModifier(m) => {
                s.append("Duplicate modifier: ");
                s.append(m.as_str());
            },
            ParserError::InconsistentExtension(x) => {
                s.append("Inconsistent extension: ");
                s.append(x.as_str());
            },
            ParserError::DuplicateExtension(p) => push_text(&mut s, "Duplicate extension at position ", *p),
            ParserError::InvalidExtension(p) => push_text(&mut s, "Invalid extension at position ", *p),
            ParserError::WrongExpressionTarget(p) => push_text(
                &mut s,
                "Invalid expression target at position: ",
                *p,
            ),
            ParserError::UnexpectedModifier(p) => push_text(&mut s, "Unexpected modifier at position ", *p),
            ParserError::MissingRootNote => s.append("Missing root note"),
            ParserError::ThreeConsecutiveSemitones(v) => {
                s.append("Three consecutive semitones: [");
                let ghost head = s@;
                let mut k: usize = 0;
                while k < v.len()
                    invariant
                        k <= v@.len(),
                        s@ == head + quoted_list(v@.map_values(|x: String| x@).take(k as int)),
                    decreases v@.len() - k,
                {
                    assert(v@.map_values(|x: String| x@).take(k + 1).drop_last() =~= v@.map_values(
                        |x: String| x@,
                    ).take(k as int));
                    let ghost before = s@;
                    if k > 0 {
                        s.append(", ");
                    }
                    s.append("\"");
                    s.append(v[k].as_str());
                    s.append("\"");
                    proof {
                        reveal_strlit(", ");
                        reveal_strlit("\"");
                        reveal_strlit(", \"");
                        let w = v@.map_values(|x: String| x@);
                        assert(w.take(k + 1).last() == v@[k as int]@);
                        if k == 0 {
                            assert(s@ =~= head + quoted_list(w.take(1)));
                        } else {
                            assert(s@ =~= before + ", \""@ + v@[k as int]@ + "\""@);
                            assert(s@ =~= head + quoted_list(w.take(k + 1)));
                        }
                    }
                    k = k + 1;
                }
                assert(v@.map_values(|x: String| x@).take(v@.len() as int) =~= v@.map_values(|x: String| x@));
                s.append("]");
            },
            ParserError::MissingAddTarget(t) => push_text(&mut s, "Missing add target at position ", t.0 + t.1),
            ParserError::IllegalOrMissingOmitTarget(t) => push_text(
                &mut s,
                "Illegal or missing omit target at position ",
                t.0 + t.1,
            ),
            ParserError::IllegalAddTarget(t) => push_text(&mut s, "Illegal add target at position ", t.0 + t.1),
            ParserError::IllegalSlashNotation(p) => push_text(&mut s, "Illegal slash notation at position ", *p),
            ParserError::UnexpectedClosingParenthesis(p) => push_text(
                &mut s,
                "Unexpected closing parenthesis at position ",
                *p,
            ),
            ParserError::MissingClosingParenthesis(p) => push_text(
                &mut s,
                "Missing closing parenthesis at position ",
                *p,
            ),
            ParserError::NestedParenthesis(p) => push_text(&mut s, "Nested parenthesis at position ", *p),
        }
        s
    }
}

/// The errors found while parsing a chord.
#[derive(Debug, PartialEq, Eq)]
pub struct ParserErrors {
    pub errors: Vec<ParserError>,
}

impl ParserErrors {
    pub fn new(messages: Vec<ParserError>) -> (r: ParserErrors)
        ensures
            r.errors@ == messages@,
    {
        ParserErrors { errors: messages }
    }
}

} // verus!
