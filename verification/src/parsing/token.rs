//! Tokens of a chord symbol.
use crate::chord::note::NoteLiteral;
use vstd::prelude::*;

verus! {

/// The kinds of token a chord symbol is made of.
#[derive(Debug, Clone, Copy, PartialEq, Eq, Structural)]
pub enum TokenType {
    Note(NoteLiteral),
    Sharp,
    Flat,
    Aug,
    Dim,
    HalfDim,
    Dim7,
    Extension(u8),
    Add,
    Omit,
    Alt,
    Sus,
    Minor,
    Hyphen,
    Maj,
    Maj7,
    Slash,
    LParent,
    RParent,
    Comma,
    Bass,
    Illegal,
    Eof,
}

/// A token: its kind, its position in the input (in bytes) and its length.
#[derive(Debug, Clone, Copy, PartialEq, Eq, Structural)]
pub struct Token {
    pub token_type: TokenType,
    pub pos: usize,
    pub len: usize,
}

/// The token a word stands for, if any.
pub open spec fn spec_token_from(w: Seq<char>) -> Option<TokenType> {
    if w == "BASS"@ || w == "Bass"@ || w == "bass"@ { Some(TokenType::Bass) }
    else if w == "MAJ"@ || w == "Maj"@ || w == "maj"@ || w == "MAJOR"@ || w == "Major"@ || w == "major"@ || w == "MA"@ || w == "Ma"@ || w == "ma"@ || w == "M"@ { Some(TokenType::Maj) }
    else if w == "MIN"@ || w == "Min"@ || w == "min"@ || w == "MINOR"@ || w == "Minor"@ || w == "minor"@ || w == "MI"@ || w == "Mi"@ || w == "mi"@ || w == "m"@ { Some(TokenType::Minor) }
    else if w == "SUS"@ || w == "Sus"@ || w == "sus"@ { Some(TokenType::Sus) }
    else if w == "DIM"@ || w == "Dim"@ || w == "dim"@ || w == "diminished"@ { Some(TokenType::Dim) }
    else if w == "ALT"@ || w == "Alt"@ || w == "alt"@ { Some(TokenType::Alt) }
    else if w == "AUG"@ || w == "Aug"@ || w == "aug"@ { Some(TokenType::Aug) }
    else if w == "ADD"@ || w == "Add"@ || w == "add"@ { Some(TokenType::Add) }
    else if w == "O"@ || w == "o"@ || w == "°"@ { Some(TokenType::Dim) }
    else if w == "OMIT"@ || w == "Omit"@ || w == "omit"@ || w == "NO"@ || w == "No"@ || w == "no"@ { Some(TokenType::Omit) }
    else if w == "A"@ { Some(TokenType::Note(NoteLiteral::A)) }
    else if w == "B"@ { Some(TokenType::Note(NoteLiteral::B)) }
    else if w == "C"@ { Some(TokenType::Note(NoteLiteral::C)) }
    else if w == "D"@ { Some(TokenType::Note(NoteLiteral::D)) }
    else if w == "E"@ { Some(TokenType::Note(NoteLiteral::E)) }
    else if w == "F"@ { Some(TokenType::Note(NoteLiteral::F)) }
    else if w == "G"@ { Some(TokenType::Note(NoteLiteral::G)) }
    else if w == "b"@ { Some(TokenType::Flat) }
    else { None }
}

/// Every word that is a token has at most ten characters.
pub proof fn lemma_token_word_len(w: Seq<char>)
    requires
        spec_token_from(w) is Some,
    ensures
        0 < w.len() <= 10,
{
    reveal_strlit("BASS");
    reveal_strlit("Bass");
    reveal_strlit("bass");
    reveal_strlit("MAJ");
    reveal_strlit("Maj");
    reveal_strlit("maj");
    reveal_strlit("MAJOR");
    reveal_strlit("Major");
    reveal_strlit("major");
    reveal_strlit("MA");
    reveal_strlit("Ma");
    reveal_strlit("ma");
    reveal_strlit("M");
    reveal_strlit("MIN");
    reveal_strlit("Min");
    reveal_strlit("min");
    reveal_strlit("MINOR");
    reveal_strlit("Minor");
    reveal_strlit("minor");
    reveal_strlit("MI");
    reveal_strlit("Mi");
    reveal_strlit("mi");
    reveal_strlit("m");
    reveal_strlit("SUS");
    reveal_strlit("Sus");
    reveal_strlit("sus");
    reveal_strlit("DIM");
    reveal_strlit("Dim");
    reveal_strlit("dim");
    reveal_strlit("diminished");
    reveal_strlit("ALT");
    reveal_strlit("Alt");
    reveal_strlit("alt");
    reveal_strlit("AUG");
    reveal_strlit("Aug");
    reveal_strlit("aug");
    reveal_strlit("ADD");
    reveal_strlit("Add");
    reveal_strlit("add");
    reveal_strlit("O");
    reveal_strlit("o");
    reveal_strlit("°");
    reveal_strlit("OMIT");
    reveal_strlit("Omit");
    reveal_strlit("omit");
    reveal_strlit("NO");
    reveal_strlit("No");
    reveal_strlit("no");
    reveal_strlit("A");
    reveal_strlit("B");
    reveal_strlit("C");
    reveal_strlit("D");
    reveal_strlit("E");
    reveal_strlit("F");
    reveal_strlit("G");
    reveal_strlit("b");
}

/// The note a capital letter `A` to `G` names.
pub open spec fn letter_note(c: char) -> NoteLiteral {
    if c == 'A' { NoteLiteral::A }
    else if c == 'B' { NoteLiteral::B }
    else if c == 'C' { NoteLiteral::C }
    else if c == 'D' { NoteLiteral::D }
    else if c == 'E' { NoteLiteral::E }
    else if c == 'F' { NoteLiteral::F }
    else { NoteLiteral::G }
}

/// Whether a character is a capital note letter.
pub open spec fn is_note_letter(c: char) -> bool {
    c == 'A' || c == 'B' || c == 'C' || c == 'D' || c == 'E' || c == 'F' || c == 'G'
}

/// A capital note letter on its own is the token of that note.
pub proof fn lemma_letter_token(c: char)
    requires
        is_note_letter(c),
    ensures
        spec_token_from(seq![c]) == Some(TokenType::Note(letter_note(c))),
{
    reveal_strlit("BASS");
    reveal_strlit("Bass");
    reveal_strlit("bass");
    reveal_strlit("MAJ");
    reveal_strlit("Maj");
    reveal_strlit("maj");
    reveal_strlit("MAJOR");
    reveal_strlit("Major");
    reveal_strlit("major");
    reveal_strlit("MA");
    reveal_strlit("Ma");
    reveal_strlit("ma");
    reveal_strlit("M");
    reveal_strlit("MIN");
    reveal_strlit("Min");
    reveal_strlit("min");
    reveal_strlit("MINOR");
    reveal_strlit("Minor");
    reveal_strlit("minor");
    reveal_strlit("MI");
    reveal_strlit("Mi");
    reveal_strlit("mi");
    reveal_strlit("m");
    reveal_strlit("SUS");
    reveal_strlit("Sus");
    reveal_strlit("sus");
    reveal_strlit("DIM");
    reveal_strlit("Dim");
    reveal_strlit("dim");
    reveal_strlit("diminished");
    reveal_strlit("ALT");
    reveal_strlit("Alt");
    reveal_strlit("alt");
    reveal_strlit("AUG");
    reveal_strlit("Aug");
    reveal_strlit("aug");
    reveal_strlit("ADD");
    reveal_strlit("Add");
    reveal_strlit("add");
    reveal_strlit("O");
    reveal_strlit("o");
    reveal_strlit("°");
    reveal_strlit("OMIT");
    reveal_strlit("Omit");
    reveal_strlit("omit");
    reveal_strlit("NO");
    reveal_strlit("No");
    reveal_strlit("no");
    reveal_strlit("A");
    reveal_strlit("B");
    reveal_strlit("C");
    reveal_strlit("D");
    reveal_strlit("E");
    reveal_strlit("F");
    reveal_strlit("G");
    reveal_strlit("b");
    let w = seq![c];
    assert(w.len() == 1 && w[0] == c);
    if c == 'A' { assert(w =~= "A"@); }
    else if c == 'B' { assert(w =~= "B"@); }
    else if c == 'C' { assert(w =~= "C"@); }
    else if c == 'D' { assert(w =~= "D"@); }
    else if c == 'E' { assert(w =~= "E"@); }
    else if c == 'F' { assert(w =~= "F"@); }
    else { assert(w =~= "G"@); }
    assert(w != "M"@ && w != "m"@ && w != "O"@ && w != "o"@ && w != "°"@ && w != "b"@);
}

/// Whether `chars[start..end]` holds exactly the characters of `lit`.
pub fn seg_eq(chars: &Vec<char>, start: usize, end: usize, lit: &str) -> (r: bool)
    requires
        start <= end <= chars@.len(),
    ensures
        r == (chars@.subrange(start as int, end as int) == lit@),
{
    let n = lit.unicode_len();
    if end - start != n {
        return false;
    }
    let mut i: usize = 0;
    while i < n
        invariant
            n == lit@.len(),
            end - start == n,
            start <= end <= chars@.len(),
            i <= n,
            forall|j: int| 0 <= j < i ==> chars@[start + j] == lit@[j],
        decreases n - i,
    {
        if chars[start + i] != lit.get_char(i) {
            return false;
        }
        i = i + 1;
    }
    assert(chars@.subrange(start as int, end as int) =~= lit@);
    true
}

/// The token for the word `chars[start..end]`, if any.
pub fn token_from_chars(chars: &Vec<char>, start: usize, end: usize) -> (r: Option<TokenType>)
    requires
        start <= end <= chars@.len(),
    ensures
        r == spec_token_from(chars@.subrange(start as int, end as int)),
{
    let ghost w = chars@.subrange(start as int, end as int);
    if seg_eq(chars, start, end, "BASS") || seg_eq(chars, start, end, "Bass") || seg_eq(chars, start, end, "bass") { return Some(TokenType::Bass); }
    if seg_eq(chars, start, end, "MAJ") || seg_eq(chars, start, end, "Maj") || seg_eq(chars, start, end, "maj") || seg_eq(chars, start, end, "MAJOR") || seg_eq(chars, start, end, "Major") || seg_eq(chars, start, end, "major") || seg_eq(chars, start, end, "MA") || seg_eq(chars, start, end, "Ma") || seg_eq(chars, start, end, "ma") || seg_eq(chars, start, end, "M") { return Some(TokenType::Maj); }
    if seg_eq(chars, start, end, "MIN") || seg_eq(chars, start, end, "Min") || seg_eq(chars, start, end, "min") || seg_eq(chars, start, end, "MINOR") || seg_eq(chars, start, end, "Minor") || seg_eq(chars, start, end, "minor") || seg_eq(chars, start, end, "MI") || seg_eq(chars, start, end, "Mi") || seg_eq(chars, start, end, "mi") || seg_eq(chars, start, end, "m") { return Some(TokenType::Minor); }
    if seg_eq(chars, start, end, "SUS") || seg_eq(chars, start, end, "Sus") || seg_eq(chars, start, end, "sus") { return Some(TokenType::Sus); }
    if seg_eq(chars, start, end, "DIM") || seg_eq(chars, start, end, "Dim") || seg_eq(chars, start, end, "dim") || seg_eq(chars, start, end, "diminished") { return Some(TokenType::Dim); }
    if seg_eq(chars, start, end, "ALT") || seg_eq(chars, start, end, "Alt") || seg_eq(chars, start, end, "alt") { return Some(TokenType::Alt); }
    if seg_eq(chars, start, end, "AUG") || seg_eq(chars, start, end, "Aug") || seg_eq(chars, start, end, "aug") { return Some(TokenType::Aug); }
    if seg_eq(chars, start, end, "ADD") || seg_eq(chars, start, end, "Add") || seg_eq(chars, start, end, "add") { return Some(TokenType::Add); }
    if seg_eq(chars, start, end, "O") || seg_eq(chars, start, end, "o") || seg_eq(chars, start, end, "°") { return Some(TokenType::Dim); }
    if seg_eq(chars, start, end, "OMIT") || seg_eq(chars, start, end, "Omit") || seg_eq(chars, start, end, "omit") || seg_eq(chars, start, end, "NO") || seg_eq(chars, start, end, "No") || seg_eq(chars, start, end, "no") { return Some(TokenType::Omit); }
    if seg_eq(chars, start, end, "A") { return Some(TokenType::Note(NoteLiteral::A)); }
    if seg_eq(chars, start, end, "B") { return Some(TokenType::Note(NoteLiteral::B)); }
    if seg_eq(chars, start, end, "C") { return Some(TokenType::Note(NoteLiteral::C)); }
    if seg_eq(chars, start, end, "D") { return Some(TokenType::Note(NoteLiteral::D)); }
    if seg_eq(chars, start, end, "E") { return Some(TokenType::Note(NoteLiteral::E)); }
    if seg_eq(chars, start, end, "F") { return Some(TokenType::Note(NoteLiteral::F)); }
    if seg_eq(chars, start, end, "G") { return Some(TokenType::Note(NoteLiteral::G)); }
    if seg_eq(chars, start, end, "b") { return Some(TokenType::Flat); }
    None
}

/// The characters of a string, in order.
pub fn chars_of(s: &str) -> (r: Vec<char>)
    ensures
        r@ == s@,
{
    let n = s.unicode_len();
    let mut r: Vec<char> = Vec::new();
    let mut i: usize = 0;
    while i < n
        invariant
            n == s@.len(),
            i <= n,
            r@ == s@.subrange(0, i as int),
        decreases n - i,
    {
        r.push(s.get_char(i));
        assert(r@ =~= s@.subrange(0, i + 1));
        i = i + 1;
    }
    r
}

impl TokenType {
    /// The token a word stands for, if any.
    pub fn from_string(i: &str) -> (r: Option<TokenType>)
        ensures
            r == spec_token_from(i@),
    {
        let chars = chars_of(i);
        assert(chars@.subrange(0, chars@.len() as int) =~= i@);
        token_from_chars(&chars, 0, chars.len())
    }
}

impl Token {
    pub fn new(token_type: TokenType, pos: usize, len: usize) -> (r: Token)
        ensures
            r == (Token { token_type, pos, len }),
    {
        Token { token_type, pos, len }
    }
}

} // verus!
