//! Reading accidentals back from their written form.
use crate::chord::note::{modifier_text, root_modifier_value, NoteModifier, RootModifier};
use crate::text::{decimal, digit_text, signed_decimal, str_eq};
use vstd::prelude::*;

verus! {

/// Whether every character of `d` is an ASCII digit.
pub open spec fn all_digits(d: Seq<char>) -> bool {
    forall|i: int| 0 <= i < d.len() ==> '0' <= #[trigger] d[i] <= '9'
}

/// The value of a string of decimal digits.
pub open spec fn digits_value(d: Seq<char>) -> int
    decreases d.len(),
{
    if d.len() == 0 {
        0
    } else {
        digits_value(d.drop_last()) * 10 + (d.last() as int - '0' as int)
    }
}

/// The signed byte a string writes, as Rust reads one: an optional `+` or `-`, then at least
/// one digit; `None` when it is not a number or is out of range.
pub open spec fn spec_parse_i8(t: Seq<char>) -> Option<i8> {
    let neg = t.len() > 0 && t[0] == '-';
    let d = if t.len() > 0 && (t[0] == '-' || t[0] == '+') { t.skip(1) } else { t };
    if d.len() == 0 || !all_digits(d) {
        None
    } else {
        let x = if neg { -digits_value(d) } else { digits_value(d) };
        if -128 <= x <= 127 { Some(x as i8) } else { None }
    }
}

/// The index of the first `c` in `s`, if any.
pub open spec fn first_index_of(s: Seq<char>, c: char) -> Option<int>
    decreases s.len(),
{
    if s.len() == 0 {
        None
    } else {
        match first_index_of(s.drop_last(), c) {
            Some(i) => Some(i),
            None => if s.last() == c { Some(s.len() - 1) } else { None },
        }
    }
}

/// Reads `(n)#` or `(n)b`: the number between the parentheses, followed by one accidental.
pub open spec fn spec_extended_modifier(s: Seq<char>) -> Result<i8, Seq<char>> {
    match first_index_of(s, ')') {
        None => Err("Missing closing parenthesis"@),
        Some(close) => {
            let num = s.subrange(1, close);
            match spec_parse_i8(num) {
                None => Err("Invalid number in modifier: "@ + num),
                Some(n) => {
                    let suffix = s.subrange(close + 1, s.len() as int);
                    if suffix == "#"@ || suffix == "b"@ {
                        Ok(n)
                    } else {
                        Err("Invalid suffix after parenthesis: "@ + suffix)
                    }
                },
            }
        },
    }
}

/// The accidental a string writes, as `NoteModifier::to_string` writes them, or why it is not one.
pub open spec fn spec_modifier_from(s: Seq<char>) -> Result<i8, Seq<char>> {
    if s == "#"@ {
        Ok(1i8)
    } else if s == "b"@ {
        Ok(-1i8)
    } else if s == "𝄪"@ {
        Ok(2i8)
    } else if s == "𝄫"@ {
        Ok(-2i8)
    } else if s.len() == 0 {
        Ok(0i8)
    } else if s[0] == '(' {
        spec_extended_modifier(s)
    } else {
        Err("Invalid modifier format: "@ + s)
    }
}

proof fn lemma_digits_value_grows(d: Seq<char>, k: int)
    requires
        0 <= k <= d.len(),
        all_digits(d),
    ensures
        digits_value(d.take(k)) <= digits_value(d),
        digits_value(d) >= 0,
    decreases d.len(),
{
    if d.len() > 0 {
        if k < d.len() {
            assert(d.drop_last().take(k) =~= d.take(k));
            lemma_digits_value_grows(d.drop_last(), k);
        } else {
            assert(d.take(k) =~= d);
            lemma_digits_value_grows(d.drop_last(), 0);
        }
    }
}

/// Reads a signed byte, as Rust's `i8::from_str` does.
fn parse_i8(t: &str) -> (r: Option<i8>)
    ensures
        r == spec_parse_i8(t@),
{
    let n = t.unicode_len();
    let mut start: usize = 0;
    let mut neg = false;
    if n > 0 {
        let c = t.get_char(0);
        if c == '-' {
            neg = true;
            start = 1;
        } else if c == '+' {
            start = 1;
        }
    }
    let ghost d = t@.skip(start as int);
    proof {
        let sd = if t@.len() > 0 && (t@[0] == '-' || t@[0] == '+') { t@.skip(1) } else { t@ };
        assert(sd =~= d);
        assert(neg == (t@.len() > 0 && t@[0] == '-'));
    }
    if start >= n {
        assert(d.len() == 0);
        return None;
    }
    let mut v: u32 = 0;
    let mut k: usize = start;
    while k < n
        invariant
            start <= k <= n,
            n == t@.len(),
            d == t@.skip(start as int),
            d == (if t@.len() > 0 && (t@[0] == '-' || t@[0] == '+') { t@.skip(1) } else { t@ }),
            neg == (t@.len() > 0 && t@[0] == '-'),
            all_digits(d.take(k - start)),
            v == (if digits_value(d.take(k - start)) > 1000 { 1001 } else { digits_value(d.take(k - start)) }),
        decreases n - k,
    {
        let c = t.get_char(k);
        let ghost pre = d.take(k - start);
        assert(d.take(k + 1 - start) =~= pre.push(c));
        assert(d.take(k + 1 - start).drop_last() =~= pre);
        if !('0' <= c && c <= '9') {
            assert(!all_digits(d)) by {
                assert(d[k - start] == c);
            }
            return None;
        }
        let digit = (c as u32) - ('0' as u32);
        proof {
            lemma_digits_value_grows(pre, 0);
        }
        if v <= 1000 {
            v = v * 10 + digit;
            if v > 1000 {
                v = 1001;
            }
        }
        k = k + 1;
    }
    assert(d.take(n - start) =~= d);
    if v > 1000 {
        return None;
    }
    let x: i32 = if neg { -(v as i32) } else { v as i32 };
    if -128 <= x && x <= 127 {
        Some(x as i8)
    } else {
        None
    }
}

impl NoteModifier {
    /// Reads an accidental as `to_string` writes it: `#`, `b`, `𝄪`, `𝄫`, nothing, or
    /// `(n)#` / `(n)b`; gives the reason when the string is not one.
    pub fn from_str(s: &str) -> (r: Result<NoteModifier, String>)
        ensures
            match r {
                Ok(m) => spec_modifier_from(s@) == Ok::<i8, Seq<char>>(m.0),
                Err(e) => spec_modifier_from(s@) == Err::<i8, Seq<char>>(e@),
            },
    {
        proof {
            reveal_strlit("#");
            reveal_strlit("b");
            reveal_strlit("𝄪");
            reveal_strlit("𝄫");
        }
        if str_eq(s, "#") {
            return Ok(NoteModifier(1));
        }
        if str_eq(s, "b") {
            return Ok(NoteModifier(-1));
        }
        if str_eq(s, "𝄪") {
            return Ok(NoteModifier(2));
        }
        if str_eq(s, "𝄫") {
            return Ok(NoteModifier(-2));
        }
        let n = s.unicode_len();
        if n == 0 {
            return Ok(NoteModifier(0));
        }
        if s.get_char(0) == '(' {
            return parse_extended_modifier(s);
        }
        proof {
            reveal_strlit("Invalid modifier format: ");
        }
        let mut e = String::new();
        e.append("Invalid modifier format: ");
        e.append(s);
        Err(e)
    }
}

/// Reads `(n)#` or `(n)b`.
fn parse_extended_modifier(s: &str) -> (r: Result<NoteModifier, String>)
    requires
        s@.len() > 0,
        s@[0] == '(',
    ensures
        match r {
            Ok(m) => spec_extended_modifier(s@) == Ok::<i8, Seq<char>>(m.0),
            Err(e) => spec_extended_modifier(s@) == Err::<i8, Seq<char>>(e@),
        },
{
    let n = s.unicode_len();
    let mut k: usize = 0;
    while k < n && s.get_char(k) != ')'
        invariant
            k <= n,
            n == s@.len(),
            first_index_of(s@.take(k as int), ')') is None,
        decreases n - k,
    {
        assert(s@.take(k + 1).drop_last() =~= s@.take(k as int));
        k = k + 1;
    }
    if k >= n {
        assert(s@.take(n as int) =~= s@);
        let mut e = String::new();
        e.append("Missing closing parenthesis");
        return Err(e);
    }
    proof {
        assert(s@.take(k + 1).drop_last() =~= s@.take(k as int));
        assert(s@.take(k + 1).last() == ')');
        lemma_first_index_prefix(s@, k as int + 1);
        assert(s@[0] == '(');
    }
    let num = s.substring_char(1, k);
    match parse_i8(num) {
        None => {
            let mut e = String::new();
            e.append("Invalid number in modifier: ");
            e.append(num);
            Err(e)
        },
        Some(v) => {
            let suffix = s.substring_char(k + 1, n);
            proof {
                reveal_strlit("#");
                reveal_strlit("b");
            }
            if str_eq(suffix, "#") || str_eq(suffix, "b") {
                Ok(NoteModifier(v))
            } else {
                let mut e = String::new();
                e.append("Invalid suffix after parenthesis: ");
                e.append(suffix);
                Err(e)
            }
        },
    }
}

proof fn lemma_first_index_prefix(s: Seq<char>, n: int)
    requires
        0 <= n <= s.len(),
        first_index_of(s.take(n), ')') is Some,
    ensures
        first_index_of(s, ')') == first_index_of(s.take(n), ')'),
    decreases s.len() - n,
{
    if n < s.len() {
        assert(s.take(n + 1).drop_last() =~= s.take(n));
        lemma_first_index_prefix(s, n + 1);
    } else {
        assert(s.take(n) =~= s);
    }
}

proof fn lemma_digit_reads_back(d: int)
    requires
        0 <= d < 10,
    ensures
        digit_text(d).len() == 1,
        '0' <= digit_text(d)[0] <= '9',
        digit_text(d)[0] as int - '0' as int == d,
{
    reveal_strlit("0");
    reveal_strlit("1");
    reveal_strlit("2");
    reveal_strlit("3");
    reveal_strlit("4");
    reveal_strlit("5");
    reveal_strlit("6");
    reveal_strlit("7");
    reveal_strlit("8");
    reveal_strlit("9");
}

proof fn lemma_decimal_reads_back(n: nat)
    ensures
        decimal(n).len() > 0,
        all_digits(decimal(n)),
        digits_value(decimal(n)) == n,
    decreases n,
{
    let d = decimal(n);
    if n < 10 {
        lemma_digit_reads_back(n as int);
        assert(d.drop_last() =~= Seq::<char>::empty());
        assert(digits_value(d) == digits_value(d.drop_last()) * 10 + (d.last() as int - '0' as int));
    } else {
        lemma_decimal_reads_back(n / 10);
        lemma_digit_reads_back((n % 10) as int);
        assert(d.drop_last() =~= decimal(n / 10));
        assert(d.last() == digit_text((n % 10) as int)[0]);
        assert(digits_value(d) == digits_value(d.drop_last()) * 10 + (d.last() as int - '0' as int));
        assert(digits_value(d) == (n / 10) * 10 + n % 10);
    }
}

proof fn lemma_first_index_absent(s: Seq<char>, c: char)
    requires
        forall|i: int| 0 <= i < s.len() ==> s[i] != c,
    ensures
        first_index_of(s, c) is None,
    decreases s.len(),
{
    if s.len() > 0 {
        lemma_first_index_absent(s.drop_last(), c);
    }
}

proof fn lemma_extended_reads_back(m: i8)
    requires
        m > 2 || m < -2,
    ensures
        modifier_text(m).len() >= 4,
        modifier_text(m)[0] == '(',
        spec_extended_modifier(modifier_text(m)) == Ok::<i8, Seq<char>>(m),
{
    reveal_strlit("(");
    reveal_strlit(")#");
    reveal_strlit(")b");
    reveal_strlit("-");
    reveal_strlit("#");
    reveal_strlit("b");
    let sd = signed_decimal(m as int);
    let mag: nat = if m < 0 { (-m) as nat } else { m as nat };
    lemma_decimal_reads_back(mag);
    let dec = decimal(mag);
    let t = modifier_text(m);
    let suffix = if m > 2 { ")#"@ } else { ")b"@ };
    assert(t =~= "("@ + sd + suffix);
    let close: int = sd.len() as int + 1;
    assert forall|i: int| 0 <= i < close implies t.take(close)[i] != ')' by {
        if i > 0 {
            if m < 0 && i == 1 {
            } else {
                let k = if m < 0 { i - 2 } else { i - 1 };
                assert(t[i] == dec[k]);
            }
        }
    }
    lemma_first_index_absent(t.take(close), ')');
    assert(t.take(close + 1).drop_last() =~= t.take(close));
    lemma_first_index_prefix(t, close + 1);
    assert(first_index_of(t, ')') == Some(close));
    assert(t.subrange(1, close) =~= sd);
    if m < 0 {
        assert(sd.skip(1) =~= dec);
    }
    assert(spec_parse_i8(sd) == Some(m));
    let rest = t.subrange(close + 1, t.len() as int);
    if m > 2 {
        assert(rest =~= "#"@);
    } else {
        assert(rest =~= "b"@);
    }
}

proof fn lemma_first_index_found(s: Seq<char>, c: char, i: int)
    requires
        0 <= i < s.len(),
        s[i] == c,
        forall|j: int| 0 <= j < i ==> s[j] != c,
    ensures
        first_index_of(s, c) == Some(i),
    decreases s.len(),
{
    if i < s.len() - 1 {
        lemma_first_index_found(s.drop_last(), c, i);
    } else {
        lemma_first_index_absent(s.drop_last(), c);
    }
}

/// The position of the first `c` in `s`, if any.
pub fn first_position(s: &str, c: char) -> (r: Option<usize>)
    ensures
        match r {
            Some(i) => first_index_of(s@, c) == Some(i as int),
            None => first_index_of(s@, c) is None,
        },
{
    let n = s.unicode_len();
    let mut i: usize = 0;
    while i < n
        invariant
            i <= n,
            n == s@.len(),
            forall|j: int| 0 <= j < i ==> s@[j] != c,
        decreases n - i,
    {
        if s.get_char(i) == c {
            proof {
                lemma_first_index_found(s@, c, i as int);
            }
            return Some(i);
        }
        i = i + 1;
    }
    proof {
        lemma_first_index_absent(s@, c);
    }
    None
}

/// Reading back the written form of any accidental gives that accidental.
pub proof fn lemma_modifier_round_trip(m: i8)
    ensures
        spec_modifier_from(modifier_text(m)) == Ok::<i8, Seq<char>>(m),
{
    reveal_strlit("#");
    reveal_strlit("b");
    reveal_strlit("𝄪");
    reveal_strlit("𝄫");
    if m > 2 || m < -2 {
        lemma_extended_reads_back(m);
        let t = modifier_text(m);
        assert(t != "#"@ && t != "b"@ && t != "𝄪"@ && t != "𝄫"@);
    }
}

impl From<RootModifier> for NoteModifier {
    fn from(value: RootModifier) -> (r: NoteModifier) {
        match value {
            RootModifier::Sharp => NoteModifier(1),
            RootModifier::Flat => NoteModifier(-1),
        }
    }
}

impl vstd::std_specs::convert::FromSpecImpl<RootModifier> for NoteModifier {
    open spec fn obeys_from_spec() -> bool {
        true
    }

    open spec fn from_spec(v: RootModifier) -> NoteModifier {
        NoteModifier(root_modifier_value(v))
    }
}

} // verus!
