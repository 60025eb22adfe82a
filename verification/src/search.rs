//! Trying a pattern on a text: whether the pattern compiled from one text is
//! found in another, and in particular in the text it was compiled from.

use vstd::prelude::*;
use crate::matching::{
    anchored_at, anchored_matches, at_boundary, class_accepts, glyph_matches, glyphs_match,
    is_self_matching, lookahead_at, lookahead_holds, pattern_matches, single_at, wild,
    words_match, words_match_at,
};
use crate::pattern::{
    assertions_view, compile, compile_model, compile_pattern, mode_of, pattern_text, Assertion,
    Compiled, Confusable, FuzzyPattern, Glyph, Lookahead, PatternModel,
};
use crate::text::{ascii_alnum, chars_of, to_ascii_lower};

verus! {

/// The lookahead `l`, tried at `p`, finds its word from `q` on.
pub open spec fn found_from(l: Lookahead, t: Seq<char>, p: int, q: int) -> bool {
    exists|r: int| lookahead_at(l, t, p, q, r)
}

/// The lookahead `l`, tried at `p`, finds its word.
pub open spec fn found_after(l: Lookahead, t: Seq<char>, p: int) -> bool {
    exists|q: int| found_from(l, t, p, q)
}

/// Every lookahead of `ls` holds in `t` at `p`.
pub open spec fn all_hold(ls: Seq<Lookahead>, t: Seq<char>, p: int) -> bool {
    forall|k: int| 0 <= k < ls.len() ==> lookahead_holds(#[trigger] ls[k], t, p)
}

/// The anchored pattern of `gs` matches `t` with the first glyph up to `a`,
/// the middle from `b` on and the last glyph from `d` on.
pub open spec fn anchored_abd(gs: Seq<Glyph>, t: Seq<char>, a: int, b: int, d: int) -> bool {
    exists|c: int| anchored_at(gs, t, a, b, c, d)
}

/// The anchored pattern of `gs` matches `t` with the first glyph up to `a`
/// and the last glyph from `d` on.
pub open spec fn anchored_ad(gs: Seq<Glyph>, t: Seq<char>, a: int, d: int) -> bool {
    exists|b: int| anchored_abd(gs, t, a, b, d)
}

/// The anchored pattern of `gs` matches `t` with the first glyph up to `a`.
pub open spec fn anchored_a(gs: Seq<Glyph>, t: Seq<char>, a: int) -> bool {
    exists|d: int| anchored_ad(gs, t, a, d)
}

/// What the pattern of `t` asks for holds in `t` from its start: the
/// anchored pattern matches, or `t` is not empty and every lookahead holds
/// at its first character.
pub open spec fn holds_from_start(t: Seq<char>) -> bool {
    match compile(t) {
        PatternModel::Anchored(gs) => anchored_matches(gs, t),
        PatternModel::Words(ls) => t.len() > 0 && all_hold(ls, t, 0),
    }
}

/// A text on one line is found by its own pattern exactly where what the
/// pattern asks for holds from the start of the text: no other place needs
/// to be tried.
pub proof fn lemma_found_exactly(t: Seq<char>)
    requires
        wild(t),
    ensures
        is_self_matching(t) == holds_from_start(t),
{
    match compile(t) {
        PatternModel::Anchored(gs) => {},
        PatternModel::Words(ls) => {
            if t.len() > 0 && all_hold(ls, t, 0) {
                assert(words_match_at(ls, t, 0));
            }
            if words_match(ls, t) {
                let p = choose|p: int| words_match_at(ls, t, p);
                assert forall|k: int| 0 <= k < ls.len() implies lookahead_holds(
                    #[trigger] ls[k],
                    t,
                    0,
                ) by {
                    assert(lookahead_holds(ls[k], t, p));
                    let (q, r) = choose|q: int, r: int| lookahead_at(ls[k], t, p, q, r);
                    assert(wild(t.subrange(0, q)));
                    assert(lookahead_at(ls[k], t, 0, q, r));
                }
            }
        },
    }
}

/// Finding a word from some place on is what holding means.
proof fn lemma_found_after(l: Lookahead, t: Seq<char>, p: int)
    ensures
        found_after(l, t, p) == lookahead_holds(l, t, p),
{
    if found_after(l, t, p) {
        let q = choose|q: int| found_from(l, t, p, q);
        let r = choose|r: int| lookahead_at(l, t, p, q, r);
        assert(lookahead_at(l, t, p, q, r));
    }
    if lookahead_holds(l, t, p) {
        let (q, r) = choose|q: int, r: int| lookahead_at(l, t, p, q, r);
        assert(lookahead_at(l, t, p, q, r));
        assert(found_from(l, t, p, q));
    }
}

/// Matching with the parts somewhere is what matching means.
proof fn lemma_anchored_somewhere(gs: Seq<Glyph>, t: Seq<char>)
    requires
        gs.len() >= 2,
    ensures
        (exists|a: int| anchored_a(gs, t, a)) == anchored_matches(gs, t),
{
    if exists|a: int| anchored_a(gs, t, a) {
        let a = choose|a: int| anchored_a(gs, t, a);
        let d = choose|d: int| anchored_ad(gs, t, a, d);
        let b = choose|b: int| anchored_abd(gs, t, a, b, d);
        let c = choose|c: int| anchored_at(gs, t, a, b, c, d);
        assert(anchored_at(gs, t, a, b, c, d));
    }
    if anchored_matches(gs, t) {
        let (a, b, c, d) = choose|a: int, b: int, c: int, d: int| anchored_at(gs, t, a, b, c, d);
        assert(anchored_at(gs, t, a, b, c, d));
        assert(anchored_abd(gs, t, a, b, d));
        assert(anchored_ad(gs, t, a, d));
        assert(anchored_a(gs, t, a));
    }
}

fn class_fits(k: Confusable, c: char) -> (b: bool)
    ensures
        b == class_accepts(k, c),
{
    let l = to_ascii_lower(c);
    match k {
        Confusable::ZeroOh => l == '0' || l == 'o',
        Confusable::Uvy => l == 'u' || l == 'v' || l == 'y',
        Confusable::Ti => l == 't' || l == 'i',
        Confusable::Stroke => l == 'i' || l == 'l' || l == '!' || l == '1',
        Confusable::Rk => l == 'r' || l == 'k',
        Confusable::Em => l == 'm',
        Confusable::Ao => l == 'a' || l == 'o',
    }
}

/// Tells whether the glyph `g` matches `t` from `from` up to `to`.
fn glyph_fits(g: Glyph, t: &Vec<char>, from: usize, to: usize) -> (b: bool)
    requires
        from <= to <= t.len(),
    ensures
        b == glyph_matches(g, t@.subrange(from as int, to as int)),
{
    let n = to - from;
    let ghost s = t@.subrange(from as int, to as int);
    proof {
        if n >= 1 {
            assert(s[0] == t@[from as int]);
        }
        if n >= 2 {
            assert(s[1] == t@[from + 1]);
        }
    }
    match g {
        Glyph::Plain(p) => n == 1 && to_ascii_lower(p) == to_ascii_lower(t[from]),
        Glyph::Class(k) => (n == 1 && class_fits(k, t[from])) || (k == Confusable::Em && n == 2
            && to_ascii_lower(t[from]) == 'r' && to_ascii_lower(t[from + 1]) == 'a'),
        Glyph::Gap => n == 1 && t[from] == ' ',
    }
}

/// Tells whether the glyphs of `gs` from `i` up to `upto` match `t` from
/// `from` up to `to`.
fn glyphs_fit(gs: &Vec<Glyph>, i: usize, upto: usize, t: &Vec<char>, from: usize, to: usize) -> (b:
    bool)
    requires
        i <= upto <= gs.len(),
        from <= to <= t.len(),
    ensures
        b == glyphs_match(
            gs@.subrange(i as int, upto as int),
            t@.subrange(from as int, to as int),
        ),
    decreases upto - i,
{
    let ghost row = gs@.subrange(i as int, upto as int);
    let ghost s = t@.subrange(from as int, to as int);
    if i == upto {
        return from == to;
    }
    proof {
        assert(row[0] == gs@[i as int]);
        assert(row.drop_first() =~= gs@.subrange(i + 1, upto as int));
        if to - from >= 1 {
            assert(s.take(1) =~= t@.subrange(from as int, from + 1));
            assert(s.skip(1) =~= t@.subrange(from + 1, to as int));
        }
        if to - from >= 2 {
            assert(s.take(2) =~= t@.subrange(from as int, from + 2));
            assert(s.skip(2) =~= t@.subrange(from + 2, to as int));
        }
    }
    if to - from >= 1 && glyph_fits(gs[i], t, from, from + 1) && glyphs_fit(
        gs,
        i + 1,
        upto,
        t,
        from + 1,
        to,
    ) {
        return true;
    }
    to - from >= 2 && glyph_fits(gs[i], t, from, from + 2) && glyphs_fit(
        gs,
        i + 1,
        upto,
        t,
        from + 2,
        to,
    )
}

/// Tells whether `t` holds no line break from `from` up to `to`.
fn is_wild(t: &Vec<char>, from: usize, to: usize) -> (b: bool)
    requires
        from <= to <= t.len(),
    ensures
        b == wild(t@.subrange(from as int, to as int)),
{
    let ghost s = t@.subrange(from as int, to as int);
    let mut i: usize = from;
    while i < to
        invariant
            from <= i <= to <= t.len(),
            s == t@.subrange(from as int, to as int),
            forall|j: int| 0 <= j < i - from ==> s[j] != '\n',
        decreases to - i,
    {
        if t[i] == '\n' {
            assert(s[i - from] == '\n');
            return false;
        }
        i += 1;
    }
    true
}

/// Tells whether a word boundary lies in `t` before position `i`.
fn boundary_at(t: &Vec<char>, i: usize) -> (b: bool)
    requires
        i <= t.len(),
    ensures
        b == at_boundary(t@, i as int),
{
    let before = i > 0 && (ascii_alnum(t[i - 1]) || t[i - 1] == '_');
    let after = i < t.len() && (ascii_alnum(t[i]) || t[i] == '_');
    before != after
}

fn lookahead_found_at(l: &Assertion, t: &Vec<char>, p: usize, q: usize, r: usize) -> (b: bool)
    requires
        p <= q <= r <= t.len(),
    ensures
        b == lookahead_at(l@, t@, p as int, q as int, r as int),
{
    let n = l.atoms.len();
    assert(l.atoms@.subrange(0, n as int) =~= l.atoms@);
    is_wild(t, p, q) && glyphs_fit(&l.atoms, 0, n, t, q, r) && (!l.bounded || (boundary_at(t, q)
        && boundary_at(t, r)))
}

fn lookahead_found_from(l: &Assertion, t: &Vec<char>, p: usize, q: usize) -> (b: bool)
    requires
        p <= q <= t.len(),
    ensures
        b == found_from(l@, t@, p as int, q as int),
{
    let n = t.len();
    let mut r: usize = q;
    loop
        invariant
            q <= r <= n,
            n == t.len(),
            p <= q,
            forall|x: int| q <= x < r ==> !lookahead_at(l@, t@, p as int, q as int, x),
        ensures
            forall|x: int| q <= x <= n ==> !lookahead_at(l@, t@, p as int, q as int, x),
        decreases n - r,
    {
        if lookahead_found_at(l, t, p, q, r) {
            return true;
        }
        if r == n {
            break;
        }
        r += 1;
    }
    false
}

/// Tells whether the lookahead `l` holds in `t` at `p`.
fn lookahead_found(l: &Assertion, t: &Vec<char>, p: usize) -> (b: bool)
    requires
        p <= t.len(),
    ensures
        b == lookahead_holds(l@, t@, p as int),
{
    let n = t.len();
    let mut q: usize = p;
    proof {
        lemma_found_after(l@, t@, p as int);
    }
    loop
        invariant
            p <= q <= n,
            n == t.len(),
            forall|x: int| p <= x < q ==> !found_from(l@, t@, p as int, x),
        ensures
            forall|x: int| p <= x <= n ==> !found_from(l@, t@, p as int, x),
        decreases n - q,
    {
        if lookahead_found_from(l, t, p, q) {
            assert(found_after(l@, t@, p as int));
            return true;
        }
        if q == n {
            break;
        }
        q += 1;
    }
    assert(!found_after(l@, t@, p as int)) by {
        if found_after(l@, t@, p as int) {
            let x = choose|x: int| found_from(l@, t@, p as int, x);
            let r = choose|r: int| lookahead_at(l@, t@, p as int, x, r);
            assert(p <= x <= n);
        }
    }
    false
}

fn lookaheads_hold(ls: &Vec<Assertion>, t: &Vec<char>, p: usize) -> (b: bool)
    requires
        p <= t.len(),
    ensures
        b == all_hold(assertions_view(ls@), t@, p as int),
{
    let ghost all = assertions_view(ls@);
    let mut k: usize = 0;
    while k < ls.len()
        invariant
            k <= ls.len(),
            p <= t.len(),
            all == assertions_view(ls@),
            forall|j: int| 0 <= j < k ==> lookahead_holds(#[trigger] all[j], t@, p as int),
        decreases ls.len() - k,
    {
        assert(all[k as int] == ls@[k as int]@);
        if !lookahead_found(&ls[k], t, p) {
            return false;
        }
        k += 1;
    }
    true
}

/// Tells whether the lookaheads of `ls`, followed by `.+`, match somewhere
/// in `t`.
fn words_found(ls: &Vec<Assertion>, t: &Vec<char>) -> (b: bool)
    ensures
        b == words_match(assertions_view(ls@), t@),
{
    let ghost all = assertions_view(ls@);
    let mut p: usize = 0;
    while p < t.len()
        invariant
            p <= t.len(),
            all == assertions_view(ls@),
            forall|x: int| 0 <= x < p ==> !words_match_at(all, t@, x),
        decreases t.len() - p,
    {
        if t[p] != '\n' && lookaheads_hold(ls, t, p) {
            assert(words_match_at(all, t@, p as int));
            return true;
        }
        p += 1;
    }
    false
}

fn anchored_found_at(gs: &Vec<Glyph>, t: &Vec<char>, a: usize, b: usize, c: usize, d: usize) -> (found:
    bool)
    requires
        gs.len() >= 2,
        a <= b <= c <= d <= t.len(),
    ensures
        found == anchored_at(gs@, t@, a as int, b as int, c as int, d as int),
{
    let n = gs.len();
    let len = t.len();
    assert(t@.take(a as int) =~= t@.subrange(0, a as int));
    assert(t@.skip(d as int) =~= t@.subrange(d as int, len as int));
    glyph_fits(gs[0], t, 0, a) && is_wild(t, a, b) && glyphs_fit(gs, 1, n - 1, t, b, c) && is_wild(
        t,
        c,
        d,
    ) && glyph_fits(gs[n - 1], t, d, len)
}

fn anchored_found_abd(gs: &Vec<Glyph>, t: &Vec<char>, a: usize, b: usize, d: usize) -> (found: bool)
    requires
        gs.len() >= 2,
        a <= b <= d <= t.len(),
    ensures
        found == anchored_abd(gs@, t@, a as int, b as int, d as int),
{
    let mut c: usize = b;
    loop
        invariant
            gs.len() >= 2,
            a <= b <= c <= d <= t.len(),
            forall|x: int| b <= x < c ==> !anchored_at(gs@, t@, a as int, b as int, x, d as int),
        ensures
            forall|x: int| b <= x <= d ==> !anchored_at(gs@, t@, a as int, b as int, x, d as int),
        decreases d - c,
    {
        if anchored_found_at(gs, t, a, b, c, d) {
            return true;
        }
        if c == d {
            break;
        }
        c += 1;
    }
    false
}

fn anchored_found_ad(gs: &Vec<Glyph>, t: &Vec<char>, a: usize, d: usize) -> (found: bool)
    requires
        gs.len() >= 2,
        a <= d <= t.len(),
    ensures
        found == anchored_ad(gs@, t@, a as int, d as int),
{
    let mut b: usize = a;
    loop
        invariant
            gs.len() >= 2,
            a <= b <= d <= t.len(),
            forall|x: int| a <= x < b ==> !anchored_abd(gs@, t@, a as int, x, d as int),
        ensures
            forall|x: int| a <= x <= d ==> !anchored_abd(gs@, t@, a as int, x, d as int),
        decreases d - b,
    {
        if anchored_found_abd(gs, t, a, b, d) {
            return true;
        }
        if b == d {
            break;
        }
        b += 1;
    }
    assert(!anchored_ad(gs@, t@, a as int, d as int)) by {
        if anchored_ad(gs@, t@, a as int, d as int) {
            let x = choose|x: int| anchored_abd(gs@, t@, a as int, x, d as int);
            let c = choose|c: int| anchored_at(gs@, t@, a as int, x, c, d as int);
            assert(a <= x <= d);
        }
    }
    false
}

fn anchored_found_a(gs: &Vec<Glyph>, t: &Vec<char>, a: usize) -> (found: bool)
    requires
        gs.len() >= 2,
        a <= t.len(),
    ensures
        found == anchored_a(gs@, t@, a as int),
{
    let n = t.len();
    let mut d: usize = a;
    loop
        invariant
            gs.len() >= 2,
            a <= d <= n,
            n == t.len(),
            forall|x: int| a <= x < d ==> !anchored_ad(gs@, t@, a as int, x),
        ensures
            forall|x: int| a <= x <= n ==> !anchored_ad(gs@, t@, a as int, x),
        decreases n - d,
    {
        if anchored_found_ad(gs, t, a, d) {
            return true;
        }
        if d == n {
            break;
        }
        d += 1;
    }
    assert(!anchored_a(gs@, t@, a as int)) by {
        if anchored_a(gs@, t@, a as int) {
            let x = choose|x: int| anchored_ad(gs@, t@, a as int, x);
            let b = choose|b: int| anchored_abd(gs@, t@, a as int, b, x);
            let c = choose|c: int| anchored_at(gs@, t@, a as int, b, c, x);
            assert(a <= x <= n);
        }
    }
    false
}

/// Tells whether a pattern of one glyph, `^.*g$`, matches `t`.
fn single_found(g: Glyph, t: &Vec<char>) -> (found: bool)
    ensures
        found == exists|i: int| single_at(g, t@, i),
{
    let n = t.len();
    let mut i: usize = 0;
    loop
        invariant
            i <= n,
            n == t.len(),
            forall|x: int| 0 <= x < i ==> !single_at(g, t@, x),
        ensures
            forall|x: int| 0 <= x <= n ==> !single_at(g, t@, x),
        decreases n - i,
    {
        assert(t@.take(i as int) =~= t@.subrange(0, i as int));
        assert(t@.skip(i as int) =~= t@.subrange(i as int, n as int));
        if is_wild(t, 0, i) && glyph_fits(g, t, i, n) {
            assert(single_at(g, t@, i as int));
            return true;
        }
        if i == n {
            break;
        }
        i += 1;
    }
    false
}

/// Tells whether the fully anchored pattern of `gs` matches `t`.
fn anchored_found(gs: &Vec<Glyph>, t: &Vec<char>) -> (found: bool)
    ensures
        found == anchored_matches(gs@, t@),
{
    if gs.len() == 0 {
        return t.len() == 0;
    }
    if gs.len() == 1 {
        return single_found(gs[0], t);
    }
    let n = t.len();
    let mut a: usize = 0;
    proof {
        lemma_anchored_somewhere(gs@, t@);
    }
    loop
        invariant
            gs.len() >= 2,
            a <= n,
            n == t.len(),
            forall|x: int| 0 <= x < a ==> !anchored_a(gs@, t@, x),
        ensures
            forall|x: int| 0 <= x <= n ==> !anchored_a(gs@, t@, x),
        decreases n - a,
    {
        if anchored_found_a(gs, t, a) {
            return true;
        }
        if a == n {
            break;
        }
        a += 1;
    }
    assert(!(exists|x: int| anchored_a(gs@, t@, x))) by {
        if exists|x: int| anchored_a(gs@, t@, x) {
            let x = choose|x: int| anchored_a(gs@, t@, x);
            let d = choose|d: int| anchored_ad(gs@, t@, x, d);
            let b = choose|b: int| anchored_abd(gs@, t@, x, b, d);
            let c = choose|c: int| anchored_at(gs@, t@, x, b, c, d);
            assert(0 <= x <= n);
        }
    }
    false
}

/// Tells whether a compiled pattern is found in `candidate`.
pub fn model_finds(model: &Compiled, candidate: &Vec<char>) -> (found: bool)
    ensures
        found == pattern_matches(model@, candidate@),
{
    match model {
        Compiled::Anchored(gs) => anchored_found(gs, candidate),
        Compiled::Words(ls) => words_found(ls, candidate),
    }
}

/// Tells whether the pattern compiled from `text` is found in `candidate`,
/// letter case set aside.
pub fn pattern_finds(text: &str, candidate: &str) -> (found: bool)
    ensures
        found == pattern_matches(compile(text@), candidate@),
{
    let model = compile_model(text);
    model_finds(&model, &chars_of(candidate))
}

/// Compiles the pattern for `text` and hands it out only where it finds
/// `text` itself.
pub fn compile_checked(text: &str) -> (p: Option<FuzzyPattern>)
    ensures
        p is Some <==> is_self_matching(text@),
        p is Some ==> p->0.regex@ == pattern_text(compile(text@)) && p->0.mode == mode_of(
            compile(text@),
        ) && pattern_matches(compile(text@), text@),
{
    if pattern_finds(text, text) {
        Some(compile_pattern(text))
    } else {
        None
    }
}

} // verus!
