//! Folding of sevenths into the tokens they belong to, before a token stream is read.
//!
//! A major sign directly followed by a 7 is one major-seventh token. Then each remaining 7 is
//! paired with a diminished sign, and each one left after that with a major sign: a sign and
//! a 7 pair up as the innermost ones of a bracket matching, the sign or the 7 coming first.
//! A pair becomes one token where its first member was.
use crate::parsing::token::{Token, TokenType};
use vstd::prelude::*;

verus! {

/// Folds a major sign (or major-seventh sign) directly followed by a 7 into one major-seventh
/// token.
pub open spec fn spec_concat_maj7(t: Seq<Token>) -> Seq<Token>
    decreases t.len(),
{
    if t.len() == 0 {
        Seq::empty()
    } else if t.len() >= 2 && (t[0].token_type == TokenType::Maj || t[0].token_type == TokenType::Maj7)
        && t[1].token_type == TokenType::Extension(7) {
        seq![Token { token_type: TokenType::Maj7, pos: t[0].pos, len: (t[0].len + t[1].len) as usize }]
            + spec_concat_maj7(t.skip(2))
    } else {
        seq![t[0]] + spec_concat_maj7(t.skip(1))
    }
}

/// The sign a 7 pairs with: a diminished sign, or a major sign.
pub open spec fn pairs_with(tt: TokenType, dim: bool) -> bool {
    if dim { tt == TokenType::Dim } else { tt == TokenType::Maj }
}

/// The pairing of signs and 7s so far: each token's partner, and the signs and 7s waiting.
pub struct Pairing {
    pub partner: Seq<Option<int>>,
    pub pend_a: Seq<int>,
    pub pend_s: Seq<int>,
}

/// Pairs each sign with the latest waiting 7, and each 7 with the latest waiting sign.
pub open spec fn pair_scan(t: Seq<Token>, dim: bool) -> Pairing
    decreases t.len(),
{
    if t.len() == 0 {
        Pairing { partner: Seq::empty(), pend_a: Seq::empty(), pend_s: Seq::empty() }
    } else {
        let p = pair_scan(t.drop_last(), dim);
        let i = t.len() - 1;
        let tt = t.last().token_type;
        if pairs_with(tt, dim) {
            if p.pend_s.len() > 0 {
                let s = p.pend_s.last();
                Pairing { partner: p.partner.update(s, Some(i)).push(Some(s)), pend_a: p.pend_a, pend_s: p.pend_s.drop_last() }
            } else {
                Pairing { partner: p.partner.push(None), pend_a: p.pend_a.push(i), pend_s: p.pend_s }
            }
        } else if tt == TokenType::Extension(7) {
            if p.pend_a.len() > 0 {
                let d = p.pend_a.last();
                Pairing { partner: p.partner.update(d, Some(i)).push(Some(d)), pend_a: p.pend_a.drop_last(), pend_s: p.pend_s }
            } else {
                Pairing { partner: p.partner.push(None), pend_a: p.pend_a, pend_s: p.pend_s.push(i) }
            }
        } else {
            Pairing { partner: p.partner.push(None), pend_a: p.pend_a, pend_s: p.pend_s }
        }
    }
}

pub open spec fn min_pos(a: usize, b: usize) -> usize {
    if a <= b { a } else { b }
}

/// The first `k` tokens with each pair folded into one token of `kind` where its first member
/// was; unpaired tokens stay.
pub open spec fn rebuild(t: Seq<Token>, partner: Seq<Option<int>>, kind: TokenType, k: int) -> Seq<Token>
    decreases k,
{
    if k <= 0 {
        Seq::empty()
    } else {
        let i = k - 1;
        rebuild(t, partner, kind, k - 1) + match partner[i] {
            Some(j) => if j > i {
                seq![Token { token_type: kind, pos: min_pos(t[i].pos, t[j].pos), len: (t[i].len + t[j].len) as usize }]
            } else {
                Seq::empty()
            },
            None => seq![t[i]],
        }
    }
}

/// Folds sign and 7 pairs into tokens of `kind`.
pub open spec fn spec_fold(t: Seq<Token>, dim: bool, kind: TokenType) -> Seq<Token> {
    rebuild(t, pair_scan(t, dim).partner, kind, t.len() as int)
}

/// The token stream as the parser reads it.
pub open spec fn spec_preprocess(t: Seq<Token>) -> Seq<Token> {
    spec_fold(spec_fold(spec_concat_maj7(t), true, TokenType::Dim7), false, TokenType::Maj7)
}

/// Whether a token kind is left alone by the folding of sevenths.
pub open spec fn unfolded(tt: TokenType) -> bool {
    tt != TokenType::Maj && tt != TokenType::Maj7 && tt != TokenType::Dim && tt != TokenType::Extension(7)
}

proof fn lemma_pair_scan_unfolded(t: Seq<Token>, dim: bool)
    ensures
        pair_scan(t, dim).partner.len() == t.len(),
        forall|k: int| 0 <= k < pair_scan(t, dim).pend_a.len() ==> 0 <= #[trigger] pair_scan(t, dim).pend_a[k] < t.len()
            && pairs_with(t[pair_scan(t, dim).pend_a[k]].token_type, dim),
        forall|k: int| 0 <= k < pair_scan(t, dim).pend_s.len() ==> 0 <= #[trigger] pair_scan(t, dim).pend_s[k] < t.len()
            && t[pair_scan(t, dim).pend_s[k]].token_type == TokenType::Extension(7),
        forall|i: int| 0 <= i < t.len() && unfolded(#[trigger] t[i].token_type) ==> pair_scan(t, dim).partner[i] is None,
    decreases t.len(),
{
    if t.len() > 0 {
        let u = t.drop_last();
        lemma_pair_scan_unfolded(u, dim);
        let p = pair_scan(u, dim);
        let q = pair_scan(t, dim);
        let i = t.len() - 1;
        let tt = t.last().token_type;
        assert forall|m: int| 0 <= m < u.len() implies #[trigger] u[m] == t[m] by {}
        if pairs_with(tt, dim) {
            if p.pend_s.len() > 0 {
                let sidx = p.pend_s.last();
                assert(p.pend_s[p.pend_s.len() - 1] == sidx);
                assert(u[sidx].token_type == TokenType::Extension(7));
                assert forall|m: int| 0 <= m < t.len() && unfolded(#[trigger] t[m].token_type) implies q.partner[m] is None by {
                    if m < i {
                        assert(u[m] == t[m]);
                        assert(m != sidx);
                    }
                }
                assert forall|k: int| 0 <= k < q.pend_s.len() implies 0 <= #[trigger] q.pend_s[k] < t.len()
                    && t[q.pend_s[k]].token_type == TokenType::Extension(7) by {
                    assert(q.pend_s[k] == p.pend_s[k]);
                }
                assert forall|k: int| 0 <= k < q.pend_a.len() implies 0 <= #[trigger] q.pend_a[k] < t.len()
                    && pairs_with(t[q.pend_a[k]].token_type, dim) by {
                    assert(q.pend_a[k] == p.pend_a[k]);
                }
            } else {
                assert forall|m: int| 0 <= m < t.len() && unfolded(#[trigger] t[m].token_type) implies q.partner[m] is None by {
                    if m < i {
                        assert(u[m] == t[m]);
                    }
                }
                assert forall|k: int| 0 <= k < q.pend_a.len() implies 0 <= #[trigger] q.pend_a[k] < t.len()
                    && pairs_with(t[q.pend_a[k]].token_type, dim) by {
                    if k < p.pend_a.len() {
                        assert(q.pend_a[k] == p.pend_a[k]);
                    }
                }
                assert forall|k: int| 0 <= k < q.pend_s.len() implies 0 <= #[trigger] q.pend_s[k] < t.len()
                    && t[q.pend_s[k]].token_type == TokenType::Extension(7) by {
                    assert(q.pend_s[k] == p.pend_s[k]);
                }
            }
        } else if tt == TokenType::Extension(7) {
            if p.pend_a.len() > 0 {
                let d = p.pend_a.last();
                assert(p.pend_a[p.pend_a.len() - 1] == d);
                assert(pairs_with(u[d].token_type, dim));
                assert forall|m: int| 0 <= m < t.len() && unfolded(#[trigger] t[m].token_type) implies q.partner[m] is None by {
                    if m < i {
                        assert(u[m] == t[m]);
                        assert(m != d);
                    }
                }
                assert forall|k: int| 0 <= k < q.pend_a.len() implies 0 <= #[trigger] q.pend_a[k] < t.len()
                    && pairs_with(t[q.pend_a[k]].token_type, dim) by {
                    assert(q.pend_a[k] == p.pend_a[k]);
                }
                assert forall|k: int| 0 <= k < q.pend_s.len() implies 0 <= #[trigger] q.pend_s[k] < t.len()
                    && t[q.pend_s[k]].token_type == TokenType::Extension(7) by {
                    assert(q.pend_s[k] == p.pend_s[k]);
                }
            } else {
                assert forall|m: int| 0 <= m < t.len() && unfolded(#[trigger] t[m].token_type) implies q.partner[m] is None by {
                    if m < i {
                        assert(u[m] == t[m]);
                    }
                }
                assert forall|k: int| 0 <= k < q.pend_s.len() implies 0 <= #[trigger] q.pend_s[k] < t.len()
                    && t[q.pend_s[k]].token_type == TokenType::Extension(7) by {
                    if k < p.pend_s.len() {
                        assert(q.pend_s[k] == p.pend_s[k]);
                    }
                }
                assert forall|k: int| 0 <= k < q.pend_a.len() implies 0 <= #[trigger] q.pend_a[k] < t.len()
                    && pairs_with(t[q.pend_a[k]].token_type, dim) by {
                    assert(q.pend_a[k] == p.pend_a[k]);
                }
            }
        } else {
            assert forall|m: int| 0 <= m < t.len() && unfolded(#[trigger] t[m].token_type) implies q.partner[m] is None by {
                if m < i {
                    assert(u[m] == t[m]);
                }
            }
            assert forall|k: int| 0 <= k < q.pend_a.len() implies 0 <= #[trigger] q.pend_a[k] < t.len()
                && pairs_with(t[q.pend_a[k]].token_type, dim) by {
                assert(q.pend_a[k] == p.pend_a[k]);
            }
            assert forall|k: int| 0 <= k < q.pend_s.len() implies 0 <= #[trigger] q.pend_s[k] < t.len()
                && t[q.pend_s[k]].token_type == TokenType::Extension(7) by {
                assert(q.pend_s[k] == p.pend_s[k]);
            }
        }
    }
}

proof fn lemma_rebuild_front(t: Seq<Token>, partner: Seq<Option<int>>, kind: TokenType, k: int)
    requires
        2 <= k <= t.len(),
        k <= partner.len(),
        partner[0] is None,
        partner[1] is None,
    ensures
        rebuild(t, partner, kind, k).len() >= 2,
        rebuild(t, partner, kind, k)[0] == t[0],
        rebuild(t, partner, kind, k)[1] == t[1],
    decreases k,
{
    if k > 2 {
        lemma_rebuild_front(t, partner, kind, k - 1);
    } else {
        assert(rebuild(t, partner, kind, 0) =~= Seq::<Token>::empty());
        assert(rebuild(t, partner, kind, 1) =~= seq![t[0]]);
        assert(rebuild(t, partner, kind, 2) =~= seq![t[0], t[1]]);
    }
}

proof fn lemma_fold_front(t: Seq<Token>, dim: bool, kind: TokenType)
    requires
        t.len() >= 2,
        unfolded(t[0].token_type),
        unfolded(t[1].token_type),
    ensures
        spec_fold(t, dim, kind).len() >= 2,
        spec_fold(t, dim, kind)[0] == t[0],
        spec_fold(t, dim, kind)[1] == t[1],
{
    lemma_pair_scan_unfolded(t, dim);
    lemma_rebuild_front(t, pair_scan(t, dim).partner, kind, t.len() as int);
}

/// Pre-processing leaves the first two tokens in place when folding has nothing to do with
/// them (neither is a major or diminished sign nor a 7).
pub proof fn lemma_preprocess_front(t: Seq<Token>)
    requires
        t.len() >= 2,
        unfolded(t[0].token_type),
        unfolded(t[1].token_type),
    ensures
        spec_preprocess(t).len() >= 2,
        spec_preprocess(t)[0] == t[0],
        spec_preprocess(t)[1] == t[1],
{
    let c = spec_concat_maj7(t);
    assert(t.skip(1)[0] == t[1]);
    assert(c == seq![t[0]] + spec_concat_maj7(t.skip(1)));
    assert(spec_concat_maj7(t.skip(1)) == seq![t[1]] + spec_concat_maj7(t.skip(1).skip(1)));
    assert(c[0] == t[0] && c[1] == t[1]);
    lemma_fold_front(c, true, TokenType::Dim7);
    let d = spec_fold(c, true, TokenType::Dim7);
    lemma_fold_front(d, false, TokenType::Maj7);
}

pub open spec fn opt_view(s: Seq<Option<usize>>) -> Seq<Option<int>> {
    s.map_values(|o: Option<usize>| match o {
        Some(x) => Some(x as int),
        None => None,
    })
}

pub open spec fn idx_view(s: Seq<usize>) -> Seq<int> {
    s.map_values(|x: usize| x as int)
}

/// Whether every token is at most `len` long and starts at or before `pos`.
pub open spec fn within(t: Seq<Token>, len: int, pos: int) -> bool {
    forall|k: int| 0 <= k < t.len() ==> #[trigger] t[k].len <= len && t[k].pos <= pos
}

/// The token stream as the parser reads it: sevenths folded into their signs.
pub fn pre_process(tokens: &Vec<Token>) -> (r: Vec<Token>)
    requires
        within(tokens@, 10, usize::MAX - 100),
    ensures
        r@ == spec_preprocess(tokens@),
        within(r@, 80, usize::MAX - 100),
        r@.len() <= tokens@.len(),
{
    let a = concat_maj7(tokens);
    let b = fold(&a, true, TokenType::Dim7, Ghost(20), Ghost(usize::MAX - 100));
    fold(&b, false, TokenType::Maj7, Ghost(40), Ghost(usize::MAX - 100))
}

/// Folds a major sign directly followed by a 7 into a major-seventh token.
#[verifier::spinoff_prover]
pub fn concat_maj7(tokens: &Vec<Token>) -> (r: Vec<Token>)
    requires
        within(tokens@, 10, usize::MAX - 100),
    ensures
        r@ == spec_concat_maj7(tokens@),
        within(r@, 20, usize::MAX - 100),
        r@.len() <= tokens@.len(),
{
    let n = tokens.len();
    let mut out: Vec<Token> = Vec::new();
    let mut i: usize = 0;
    assert(tokens@.skip(0) =~= tokens@);
    while i < n
        invariant
            n == tokens@.len(),
            i <= n,
            within(tokens@, 10, usize::MAX - 100),
            within(out@, 20, usize::MAX - 100),
            out@ + spec_concat_maj7(tokens@.skip(i as int)) == spec_concat_maj7(tokens@),
            out@.len() <= i,
        decreases n - i,
    {
        let ghost rest = tokens@.skip(i as int);
        let t = tokens[i];
        if i + 1 < n && (t.token_type == TokenType::Maj || t.token_type == TokenType::Maj7)
            && tokens[i + 1].token_type == TokenType::Extension(7) {
            let merged = Token { token_type: TokenType::Maj7, pos: t.pos, len: t.len + tokens[i + 1].len };
            out.push(merged);
            assert(rest.skip(2) =~= tokens@.skip(i + 2));
            assert(out@ + spec_concat_maj7(tokens@.skip(i + 2)) =~= spec_concat_maj7(tokens@));
            i = i + 2;
        } else {
            out.push(t);
            assert(rest.skip(1) =~= tokens@.skip(i + 1));
            assert(out@ + spec_concat_maj7(tokens@.skip(i + 1)) =~= spec_concat_maj7(tokens@));
            i = i + 1;
        }
    }
    assert(tokens@.skip(n as int) =~= Seq::<Token>::empty());
    assert(out@ =~= spec_concat_maj7(tokens@));
    out
}

/// Folds the pairs of a sign (diminished when `dim`, else major) and a 7 into `kind` tokens.
fn fold(tokens: &Vec<Token>, dim: bool, kind: TokenType, Ghost(limit): Ghost<int>, Ghost(last): Ghost<int>) -> (r: Vec<
    Token,
>)
    requires
        within(tokens@, limit, last),
        0 <= limit <= 40,
    ensures
        r@ == spec_fold(tokens@, dim, kind),
        within(r@, 2 * limit, last),
        r@.len() <= tokens@.len(),
{
    let n = tokens.len();
    let mut partner: Vec<Option<usize>> = Vec::new();
    let mut pend_a: Vec<usize> = Vec::new();
    let mut pend_s: Vec<usize> = Vec::new();
    let mut i: usize = 0;
    while i < n
        invariant
            n == tokens@.len(),
            i <= n,
            partner@.len() == i,
            opt_view(partner@) == pair_scan(tokens@.take(i as int), dim).partner,
            idx_view(pend_a@) == pair_scan(tokens@.take(i as int), dim).pend_a,
            idx_view(pend_s@) == pair_scan(tokens@.take(i as int), dim).pend_s,
            forall|k: int| 0 <= k < pend_a@.len() ==> #[trigger] pend_a@[k] < i,
            forall|k: int| 0 <= k < pend_s@.len() ==> #[trigger] pend_s@[k] < i,
            forall|k: int| 0 <= k < partner@.len() ==> (#[trigger] partner@[k] matches Some(x) ==> x < i),
        decreases n - i,
    {
        let ghost pre = tokens@.take(i as int);
        assert(tokens@.take(i + 1).drop_last() =~= pre);
        assert(tokens@.take(i + 1).last() == tokens@[i as int]);
        let tt = tokens[i].token_type;
        let is_sign = if dim { tt == TokenType::Dim } else { tt == TokenType::Maj };
        let ghost op = opt_view(partner@);
        if is_sign {
            if pend_s.len() > 0 {
                let s = pend_s.pop().unwrap();
                partner.set(s, Some(i));
                partner.push(Some(s));
                assert(opt_view(partner@) =~= op.update(s as int, Some(i as int)).push(Some(s as int)));
            } else {
                partner.push(None);
                pend_a.push(i);
                assert(opt_view(partner@) =~= op.push(None));
            }
        } else if tt == TokenType::Extension(7) {
            if pend_a.len() > 0 {
                let d = pend_a.pop().unwrap();
                partner.set(d, Some(i));
                partner.push(Some(d));
                assert(opt_view(partner@) =~= op.update(d as int, Some(i as int)).push(Some(d as int)));
            } else {
                partner.push(None);
                pend_s.push(i);
                assert(opt_view(partner@) =~= op.push(None));
            }
        } else {
            partner.push(None);
            assert(opt_view(partner@) =~= op.push(None));
        }
        assert(idx_view(pend_a@) =~= pair_scan(tokens@.take(i + 1), dim).pend_a);
        assert(idx_view(pend_s@) =~= pair_scan(tokens@.take(i + 1), dim).pend_s);
        i = i + 1;
    }
    assert(tokens@.take(n as int) =~= tokens@);
    let ghost pv = opt_view(partner@);
    let mut out: Vec<Token> = Vec::new();
    let mut i: usize = 0;
    while i < n
        invariant
            n == tokens@.len(),
            i <= n,
            partner@.len() == n,
            pv == opt_view(partner@),
            pv == pair_scan(tokens@, dim).partner,
            forall|k: int| 0 <= k < partner@.len() ==> (#[trigger] partner@[k] matches Some(x) ==> x < n),
            within(tokens@, limit, last),
            0 <= limit <= 40,
            within(out@, 2 * limit, last),
            out@ == rebuild(tokens@, pv, kind, i as int),
            out@.len() <= i,
        decreases n - i,
    {
        let t = tokens[i];
        let ghost before = out@;
        match partner[i] {
            Some(j) => {
                if j > i {
                    let u = tokens[j];
                    let pos = if t.pos <= u.pos { t.pos } else { u.pos };
                    out.push(Token { token_type: kind, pos, len: t.len + u.len });
                }
            },
            None => {
                out.push(t);
            },
        }
        assert(out@ =~= rebuild(tokens@, pv, kind, i + 1));
        i = i + 1;
    }
    out
}

} // verus!
