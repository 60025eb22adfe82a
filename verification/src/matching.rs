//! What it means for a pattern to match a text, and the proof that the
//! pattern compiled from a text matches that text.
//!
//! Matching sets letter case aside. A dot stands for any character but a line
//! break, `^` and `$` for the two ends of the text, and `\b` for a place
//! where a word character (an ASCII letter, digit or underscore) meets
//! something else. A pattern of lookaheads is searched for: it may match
//! from any place in the text.

use vstd::prelude::*;
use crate::pattern::{
    all_plain, compile, edges_plain, glyph_of, glyphs_of, has_gap, is_decimal_point, is_partial,
    is_retained, is_short, is_stray_digit, kept_chars, lookahead_of, lookaheads_of, normalized, word_width,
    words_of, Confusable, Glyph, Lookahead, PatternModel,
};
use crate::text::{ascii_lower, is_ascii_alnum};

verus! {

/// The two characters are the same letter, in whichever case.
pub open spec fn same_letter(a: char, b: char) -> bool {
    ascii_lower(a) == ascii_lower(b)
}

/// The bracket expression of the class `k` accepts `c`.
pub open spec fn class_accepts(k: Confusable, c: char) -> bool {
    let l = ascii_lower(c);
    match k {
        Confusable::ZeroOh => l == '0' || l == 'o',
        Confusable::Uvy => l == 'u' || l == 'v' || l == 'y',
        Confusable::Ti => l == 't' || l == 'i',
        Confusable::Stroke => l == 'i' || l == 'l' || l == '!' || l == '1',
        Confusable::Rk => l == 'r' || l == 'k',
        Confusable::Em => l == 'm',
        Confusable::Ao => l == 'a' || l == 'o',
    }
}

/// The glyph `g`, written out, matches exactly the text `s`: a plain
/// character its own letter, a class one of its characters, and `(m|ra)`
/// also the two letters `ra`.
pub open spec fn glyph_matches(g: Glyph, s: Seq<char>) -> bool {
    match g {
        Glyph::Plain(p) => s.len() == 1 && same_letter(p, s[0]),
        Glyph::Class(k) => (s.len() == 1 && class_accepts(k, s[0])) || (k == Confusable::Em
            && s.len() == 2 && ascii_lower(s[0]) == 'r' && ascii_lower(s[1]) == 'a'),
        Glyph::Gap => s.len() == 1 && s[0] == ' ',
    }
}

/// The glyphs `gs`, written out in a row, match exactly the text `s`.
pub open spec fn glyphs_match(gs: Seq<Glyph>, s: Seq<char>) -> bool
    decreases gs.len(),
{
    if gs.len() == 0 {
        s.len() == 0
    } else {
        (s.len() >= 1 && glyph_matches(gs[0], s.take(1)) && glyphs_match(
            gs.drop_first(),
            s.skip(1),
        )) || (s.len() >= 2 && glyph_matches(gs[0], s.take(2)) && glyphs_match(
            gs.drop_first(),
            s.skip(2),
        ))
    }
}

/// `.*` matches `s`: no line break in it.
pub open spec fn wild(s: Seq<char>) -> bool {
    forall|i: int| 0 <= i < s.len() ==> s[i] != '\n'
}

/// A character that counts as part of a word: an ASCII letter or digit, or
/// an underscore.
pub open spec fn is_word_char(c: char) -> bool {
    is_ascii_alnum(c) || c == '_'
}

/// `\b` matches in `t` before position `i`.
pub open spec fn at_boundary(t: Seq<char>, i: int) -> bool {
    (0 < i <= t.len() && is_word_char(t[i - 1])) != (0 <= i < t.len() && is_word_char(t[i]))
}

/// `^a.*`, the glyphs between, `.*z$` matches `t` with the first glyph on
/// `t` up to `a`, the middle on `b` up to `c`, and the last from `d` on.
pub open spec fn anchored_at(gs: Seq<Glyph>, t: Seq<char>, a: int, b: int, c: int, d: int) -> bool {
    &&& 0 <= a <= b <= c <= d <= t.len()
    &&& glyph_matches(gs[0], t.take(a))
    &&& wild(t.subrange(a, b))
    &&& glyphs_match(gs.subrange(1, gs.len() - 1), t.subrange(b, c))
    &&& wild(t.subrange(c, d))
    &&& glyph_matches(gs.last(), t.skip(d))
}

/// `^.*g$` matches `t` with the glyph from `i` on.
pub open spec fn single_at(g: Glyph, t: Seq<char>, i: int) -> bool {
    0 <= i <= t.len() && wild(t.take(i)) && glyph_matches(g, t.skip(i))
}

/// The fully anchored pattern of `gs` matches `t`.
pub open spec fn anchored_matches(gs: Seq<Glyph>, t: Seq<char>) -> bool {
    if gs.len() == 0 {
        t.len() == 0
    } else if gs.len() == 1 {
        exists|i: int| single_at(gs[0], t, i)
    } else {
        exists|a: int, b: int, c: int, d: int| anchored_at(gs, t, a, b, c, d)
    }
}

/// The lookahead `l`, tried at `p`, finds its word on `t` from `q` up to `r`.
pub open spec fn lookahead_at(l: Lookahead, t: Seq<char>, p: int, q: int, r: int) -> bool {
    &&& 0 <= p <= q <= r <= t.len()
    &&& wild(t.subrange(p, q))
    &&& glyphs_match(l.atoms, t.subrange(q, r))
    &&& l.bounded ==> at_boundary(t, q) && at_boundary(t, r)
}

/// The lookahead `l` holds in `t` at `p`.
pub open spec fn lookahead_holds(l: Lookahead, t: Seq<char>, p: int) -> bool {
    exists|q: int, r: int| lookahead_at(l, t, p, q, r)
}

/// The lookaheads `ls`, followed by `.+`, match in `t` at `p`.
pub open spec fn words_match_at(ls: Seq<Lookahead>, t: Seq<char>, p: int) -> bool {
    &&& 0 <= p < t.len()
    &&& t[p] != '\n'
    &&& forall|k: int| 0 <= k < ls.len() ==> lookahead_holds(#[trigger] ls[k], t, p)
}

/// The lookaheads `ls`, followed by `.+`, match somewhere in `t`.
pub open spec fn words_match(ls: Seq<Lookahead>, t: Seq<char>) -> bool {
    exists|p: int| words_match_at(ls, t, p)
}

/// The pattern that `m` says is found in `t`.
pub open spec fn pattern_matches(m: PatternModel, t: Seq<char>) -> bool {
    match m {
        PatternModel::Anchored(gs) => anchored_matches(gs, t),
        PatternModel::Words(ls) => words_match(ls, t),
    }
}

/// Where each word of `g` begins and ends.
pub open spec fn word_spans(g: Seq<Glyph>) -> Seq<(int, int)>
    decreases g.len(),
{
    if g.len() == 0 {
        Seq::empty()
    } else {
        let before = word_spans(g.drop_last());
        if g.last() == Glyph::Gap {
            before
        } else if g.len() >= 2 && g[g.len() - 2] != Glyph::Gap && before.len() > 0 {
            before.drop_last().push((before.last().0, g.len() as int))
        } else {
            before.push((g.len() - 1, g.len() as int))
        }
    }
}

/// The span `(a, b)` holds a word of `g`: glyphs that are no gaps, with a
/// gap or the start of `g` before them and a gap or the end of `g` after.
pub open spec fn is_word_span(g: Seq<Glyph>, a: int, b: int) -> bool {
    &&& 0 <= a < b <= g.len()
    &&& forall|i: int| a <= i < b ==> g[i] != Glyph::Gap
    &&& a == 0 || g[a - 1] == Glyph::Gap
    &&& b == g.len() || g[b] == Glyph::Gap
}

/// A glyph matches the character it was made from.
pub proof fn lemma_glyph_matches_own_char(c: char)
    requires
        glyph_of(c) != Glyph::Gap,
    ensures
        glyph_matches(glyph_of(c), seq![c]),
{
}

/// A row of glyphs matches the characters it was made from.
pub proof fn lemma_glyphs_match_own_chars(t: Seq<char>, a: int, b: int)
    requires
        0 <= a <= b <= t.len(),
        forall|i: int| a <= i < b ==> glyph_of(t[i]) != Glyph::Gap,
    ensures
        glyphs_match(glyphs_of(t).subrange(a, b), t.subrange(a, b)),
    decreases b - a,
{
    let gs = glyphs_of(t).subrange(a, b);
    let s = t.subrange(a, b);
    if a < b {
        lemma_glyph_matches_own_char(t[a]);
        assert(s.take(1) =~= seq![t[a]]);
        assert(gs[0] == glyph_of(t[a]));
        assert(gs.drop_first() =~= glyphs_of(t).subrange(a + 1, b));
        assert(s.skip(1) =~= t.subrange(a + 1, b));
        lemma_glyphs_match_own_chars(t, a + 1, b);
    }
}

/// The words of `g` are what stands on its word spans, and only the last
/// span can reach the end of `g`.
pub proof fn lemma_word_spans(g: Seq<Glyph>)
    ensures
        word_spans(g).len() == words_of(g).len(),
        forall|j: int|
            0 <= j < word_spans(g).len() ==> {
                let span = #[trigger] word_spans(g)[j];
                &&& is_word_span(g, span.0, span.1)
                &&& words_of(g)[j] == g.subrange(span.0, span.1)
                &&& span.1 == g.len() ==> j == word_spans(g).len() - 1
            },
        g.len() > 0 && g.last() != Glyph::Gap ==> word_spans(g).len() > 0 && word_spans(
            g,
        ).last().1 == g.len(),
    decreases g.len(),
{
    if g.len() > 0 {
        let h = g.drop_last();
        lemma_word_spans(h);
        let before = word_spans(h);
        let spans = word_spans(g);
        let n = g.len() as int;
        assert forall|j: int| 0 <= j < spans.len() implies {
            let span = #[trigger] spans[j];
            &&& is_word_span(g, span.0, span.1)
            &&& words_of(g)[j] == g.subrange(span.0, span.1)
            &&& span.1 == g.len() ==> j == spans.len() - 1
        } by {
            if g.last() == Glyph::Gap {
                let span = before[j];
                assert(is_word_span(h, span.0, span.1));
                assert(g.subrange(span.0, span.1) =~= h.subrange(span.0, span.1));
                assert forall|i: int| span.0 <= i < span.1 implies g[i] != Glyph::Gap by {
                    assert(g[i] == h[i]);
                }
                if span.1 < h.len() {
                    assert(g[span.1] == h[span.1]);
                }
                if span.0 > 0 {
                    assert(g[span.0 - 1] == h[span.0 - 1]);
                }
            } else if n >= 2 && g[n - 2] != Glyph::Gap && before.len() > 0 {
                assert(h.last() == g[n - 2]);
                if j < spans.len() - 1 {
                    let span = before[j];
                    assert(spans[j] == span);
                    assert(is_word_span(h, span.0, span.1));
                    assert(span.1 < h.len());
                    assert(g.subrange(span.0, span.1) =~= h.subrange(span.0, span.1));
                    assert forall|i: int| span.0 <= i < span.1 implies g[i] != Glyph::Gap by {
                        assert(g[i] == h[i]);
                    }
                    assert(g[span.1] == h[span.1]);
                    if span.0 > 0 {
                        assert(g[span.0 - 1] == h[span.0 - 1]);
                    }
                } else {
                    let old_span = before.last();
                    assert(is_word_span(h, old_span.0, old_span.1));
                    assert(old_span.1 == h.len());
                    assert(spans[j] == (old_span.0, n));
                    assert(g.subrange(old_span.0, n) =~= h.subrange(old_span.0, n - 1).push(
                        g.last(),
                    ));
                    assert forall|i: int| old_span.0 <= i < n implies g[i] != Glyph::Gap by {
                        if i < n - 1 {
                            assert(g[i] == h[i]);
                        }
                    }
                    if old_span.0 > 0 {
                        assert(g[old_span.0 - 1] == h[old_span.0 - 1]);
                    }
                }
            } else {
                if n >= 2 && g[n - 2] != Glyph::Gap {
                    assert(h.last() == g[n - 2]);
                    assert(false);
                }
                if j < spans.len() - 1 {
                    let span = before[j];
                    assert(spans[j] == span);
                    assert(is_word_span(h, span.0, span.1));
                    if span.1 == h.len() {
                        assert(h[span.1 - 1] != Glyph::Gap);
                        assert(h[span.1 - 1] == g[n - 2]);
                        assert(false);
                    }
                    assert(g.subrange(span.0, span.1) =~= h.subrange(span.0, span.1));
                    assert forall|i: int| span.0 <= i < span.1 implies g[i] != Glyph::Gap by {
                        assert(g[i] == h[i]);
                    }
                    assert(g[span.1] == h[span.1]);
                    if span.0 > 0 {
                        assert(g[span.0 - 1] == h[span.0 - 1]);
                    }
                } else {
                    assert(spans[j] == (n - 1, n));
                    assert(g.subrange(n - 1, n) =~= seq![g.last()]);
                }
            }
        }
    }
}

/// Where in `t` the characters stand that the pattern keeps: all but the
/// periods that read as decimal points.
pub open spec fn kept_positions(t: Seq<char>) -> Seq<int>
    decreases t.len(),
{
    if t.len() == 0 {
        Seq::empty()
    } else {
        let before = kept_positions(t.drop_last());
        if is_decimal_point(kept_chars(t.drop_last()), t.last()) {
            before
        } else {
            before.push(t.len() - 1)
        }
    }
}

/// The part of the normalized text that the lookahead of word `j` asks for:
/// the word, or the word without its first two and last two glyphs.
pub open spec fn lookahead_span(g: Seq<Glyph>, j: int, partial: bool) -> (int, int) {
    let span = word_spans(g)[j];
    let w = words_of(g)[j];
    if partial && word_width(w) > 4 && edges_plain(w) {
        (span.0 + 2, span.1 - 2)
    } else {
        span
    }
}

/// What the lookahead of word `j` asks for stands in `t` where it was read:
/// its characters follow one another with no decimal point between them, and
/// where the lookahead is bounded they stand between word boundaries.
pub open spec fn stands_in_text(t: Seq<char>, j: int) -> bool {
    let g = normalized(t);
    let at = kept_positions(t);
    let span = lookahead_span(g, j, is_partial(t));
    &&& at[span.1 - 1] - at[span.0] == span.1 - 1 - span.0
    &&& lookahead_of(words_of(g)[j], is_partial(t)).bounded ==> at_boundary(t, at[span.0])
        && at_boundary(t, at[span.1 - 1] + 1)
}

/// Every word that gets a lookahead stands in `t` where it was read.
pub open spec fn words_stand_in_text(t: Seq<char>) -> bool {
    forall|j: int|
        0 <= j < words_of(normalized(t)).len() && is_retained(words_of(normalized(t)), j)
            ==> #[trigger] stands_in_text(t, j)
}

/// The text is kept whole: no period of it reads as a decimal point, and no
/// last digit is left out.
pub open spec fn is_kept_whole(t: Seq<char>) -> bool {
    normalized(t) == glyphs_of(t)
}

/// What the pattern of `t` asks for stands in `t`: a short token is kept
/// whole, and in any other text every word that gets a lookahead stands
/// where it was read.
pub open spec fn stands_as_compiled(t: Seq<char>) -> bool {
    if is_short(t) && !has_gap(normalized(t)) {
        is_kept_whole(t)
    } else {
        words_stand_in_text(t)
    }
}

/// The text is found by its own pattern.
pub open spec fn is_self_matching(t: Seq<char>) -> bool {
    pattern_matches(compile(t), t)
}

/// A text that holds in plain sight what its pattern asks for: it is not
/// empty, stands on one line, and has every part of the pattern in the place
/// where it was read.
pub open spec fn is_standing_text(t: Seq<char>) -> bool {
    &&& t.len() > 0
    &&& wild(t)
    &&& stands_as_compiled(t)
}

/// The kept characters are the characters of the text at the kept
/// positions, which rise.
pub proof fn lemma_kept_positions(t: Seq<char>)
    ensures
        kept_positions(t).len() == kept_chars(t).len(),
        forall|i: int|
            0 <= i < kept_positions(t).len() ==> 0 <= #[trigger] kept_positions(t)[i] < t.len()
                && kept_chars(t)[i] == t[kept_positions(t)[i]],
        forall|i: int, j: int|
            0 <= i < j < kept_positions(t).len() ==> kept_positions(t)[i] < kept_positions(t)[j],
    decreases t.len(),
{
    if t.len() > 0 {
        let h = t.drop_last();
        lemma_kept_positions(h);
        let before = kept_positions(h);
        let at = kept_positions(t);
        assert forall|i: int| 0 <= i < at.len() implies 0 <= #[trigger] at[i] < t.len()
            && kept_chars(t)[i] == t[at[i]] by {
            if i < before.len() {
                assert(at[i] == before[i]);
                assert(h[before[i]] == t[before[i]]);
            }
        }
        assert forall|i: int, j: int| 0 <= i < j < at.len() implies at[i] < at[j] by {
            assert(at[i] == before[i]);
            if j < before.len() {
                assert(at[j] == before[j]);
            }
        }
    }
}

/// A word of plain characters is as wide as it is long.
proof fn lemma_plain_width(w: Seq<Glyph>)
    requires
        all_plain(w),
    ensures
        word_width(w) == w.len(),
    decreases w.len(),
{
    if w.len() > 0 {
        let h = w.drop_last();
        assert forall|i: int| 0 <= i < h.len() implies h[i] is Plain by {
            assert(h[i] == w[i]);
        }
        lemma_plain_width(h);
        assert(w.last() is Plain);
    }
}

/// What the lookahead of a word asks for is part of the word, and not
/// empty.
proof fn lemma_lookahead_span(g: Seq<Glyph>, j: int, partial: bool)
    requires
        0 <= j < words_of(g).len(),
    ensures
        word_spans(g)[j].0 <= lookahead_span(g, j, partial).0 < lookahead_span(g, j, partial).1
            <= word_spans(g)[j].1,
        lookahead_of(words_of(g)[j], partial).atoms == g.subrange(
            lookahead_span(g, j, partial).0,
            lookahead_span(g, j, partial).1,
        ),
{
    lemma_word_spans(g);
    let whole = word_spans(g)[j];
    assert(is_word_span(g, whole.0, whole.1));
    let w = words_of(g)[j];
    assert(w == g.subrange(whole.0, whole.1));
    if partial && word_width(w) > 4 && edges_plain(w) {
        if w.len() == 4 {
            assert forall|i: int| 0 <= i < w.len() implies w[i] is Plain by {}
            lemma_plain_width(w);
        }
        assert(w.subrange(2, w.len() - 2) =~= g.subrange(whole.0 + 2, whole.1 - 2));
    }
}

/// Rising positions that span no more than their number follow one another.
proof fn lemma_unbroken(at: Seq<int>, a: int, b: int, i: int)
    requires
        0 <= a <= i < b <= at.len(),
        forall|x: int, y: int| 0 <= x < y < at.len() ==> at[x] < at[y],
        at[b - 1] - at[a] == b - 1 - a,
    ensures
        at[i] == at[a] + (i - a),
    decreases b - a,
{
    if a < b - 1 {
        assert(at[a] < at[a + 1]);
        assert(at[b - 2] < at[b - 1]);
        if i == b - 1 {
        } else {
            lemma_rising_gap(at, a, b - 2);
            lemma_unbroken(at, a, b - 1, i);
        }
    }
}

/// Rising positions lie at least as far apart as their places.
proof fn lemma_rising_gap(at: Seq<int>, a: int, b: int)
    requires
        0 <= a <= b < at.len(),
        forall|x: int, y: int| 0 <= x < y < at.len() ==> at[x] < at[y],
    ensures
        at[b] - at[a] >= b - a,
    decreases b - a,
{
    if a < b {
        lemma_rising_gap(at, a, b - 1);
        assert(at[b - 1] < at[b]);
    }
}

/// The lookahead of a retained word of the normalized text holds in the text
/// from its start.
proof fn lemma_word_is_found(t: Seq<char>, j: int)
    requires
        is_standing_text(t),
        words_stand_in_text(t),
        0 <= j < words_of(normalized(t)).len(),
        is_retained(words_of(normalized(t)), j),
    ensures
        lookahead_holds(lookahead_of(words_of(normalized(t))[j], is_partial(t)), t, 0),
{
    let g = normalized(t);
    let kept = kept_chars(t);
    let all = glyphs_of(kept);
    let at = kept_positions(t);
    let partial = is_partial(t);
    lemma_word_spans(g);
    lemma_kept_positions(t);
    let whole = word_spans(g)[j];
    assert(is_word_span(g, whole.0, whole.1));
    let w = words_of(g)[j];
    assert(w == g.subrange(whole.0, whole.1));
    let l = lookahead_of(w, partial);
    let span = lookahead_span(g, j, partial);
    let a = span.0;
    let b = span.1;
    assert(stands_in_text(t, j));
    lemma_lookahead_span(g, j, partial);
    assert(g.len() <= kept.len());
    assert forall|i: int| 0 <= i < g.len() implies g[i] == glyph_of(kept[i]) by {
        assert(all[i] == glyph_of(kept[i]));
    }
    assert forall|i: int| a <= i < b implies glyph_of(kept[i]) != Glyph::Gap by {
        assert(g[i] != Glyph::Gap);
    }
    assert(l.atoms =~= all.subrange(a, b));
    lemma_glyphs_match_own_chars(kept, a, b);
    assert(glyphs_match(l.atoms, kept.subrange(a, b)));
    let q = at[a];
    let r = at[b - 1] + 1;
    assert forall|i: int| a <= i < b implies at[i] == q + (i - a) by {
        lemma_unbroken(at, a, b, i);
    }
    assert(t.subrange(q, r) =~= kept.subrange(a, b)) by {
        assert forall|i: int| 0 <= i < b - a implies t.subrange(q, r)[i] == kept.subrange(a, b)[i] by {
            assert(at[a + i] == q + i);
            assert(kept[a + i] == t[at[a + i]]);
        }
    }
    assert(wild(t.subrange(0, q)));
    assert(lookahead_at(l, t, 0, q, r));
}

/// Every lookahead of the normalized text's words holds in the text from its
/// start.
proof fn lemma_lookaheads_hold(t: Seq<char>, upto: int)
    requires
        is_standing_text(t),
        words_stand_in_text(t),
        0 <= upto <= words_of(normalized(t)).len(),
    ensures
        forall|k: int|
            0 <= k < lookaheads_of(words_of(normalized(t)), is_partial(t), upto).len()
                ==> lookahead_holds(
                #[trigger] lookaheads_of(words_of(normalized(t)), is_partial(t), upto)[k],
                t,
                0,
            ),
    decreases upto,
{
    if upto > 0 {
        let words = words_of(normalized(t));
        lemma_lookaheads_hold(t, upto - 1);
        if is_retained(words, upto - 1) {
            lemma_word_is_found(t, upto - 1);
        }
        let before = lookaheads_of(words, is_partial(t), upto - 1);
        let now = lookaheads_of(words, is_partial(t), upto);
        assert forall|k: int| 0 <= k < now.len() implies lookahead_holds(#[trigger] now[k], t, 0) by {
            if k < before.len() {
                assert(now[k] == before[k]);
            }
        }
    }
}

/// The pattern compiled from a text matches that text, letter case set
/// aside, where the text is a standing text: not empty and on one line, a
/// short token kept whole, and in any other text every word that gets a
/// lookahead in the place where it was read. A text can also be found for
/// another reason (`ab22` is found though its last digit is left out);
/// `search::compile_checked` tells for every text whether it is.
pub proof fn lemma_pattern_matches_own_text(t: Seq<char>)
    requires
        is_standing_text(t),
    ensures
        is_self_matching(t),
{
    let g = normalized(t);
    if is_short(t) && !has_gap(g) {
        let all = glyphs_of(t);
        assert(all.len() == t.len());
        assert(g == all);
        let n = t.len() as int;
        assert forall|i: int| 0 <= i < n implies glyph_of(t[i]) != Glyph::Gap by {
            assert(g[i] == glyph_of(t[i]));
        }
        if n == 1 {
            lemma_glyph_matches_own_char(t[0]);
            assert(t.skip(0) =~= seq![t[0]]);
            assert(wild(t.take(0)));
            assert(single_at(g[0], t, 0));
        } else {
            lemma_glyph_matches_own_char(t[0]);
            lemma_glyph_matches_own_char(t[n - 1]);
            lemma_glyphs_match_own_chars(t, 1, n - 1);
            assert(t.take(1) =~= seq![t[0]]);
            assert(t.skip(n - 1) =~= seq![t[n - 1]]);
            assert(wild(t.subrange(1, 1)));
            assert(wild(t.subrange(n - 1, n - 1)));
            assert(anchored_at(g, t, 1, 1, n - 1, n - 1));
        }
        assert(anchored_matches(g, t));
        assert(compile(t) == PatternModel::Anchored(g));
    } else {
        let words = words_of(g);
        let ls = lookaheads_of(words, is_partial(t), words.len() as int);
        lemma_lookaheads_hold(t, words.len() as int);
        assert(words_match_at(ls, t, 0));
        assert(compile(t) == PatternModel::Words(ls));
        assert(words_match(ls, t));
    }
}

/// No period of `t` reads as a decimal point.
pub open spec fn keeps_every_period(t: Seq<char>) -> bool {
    kept_chars(t) == t
}

/// No underscore of `t` touches an ASCII letter or digit, and a last digit
/// that the pattern leaves out follows a gap.
pub open spec fn stands_plainly(t: Seq<char>) -> bool {
    &&& forall|i: int|
        0 <= i < t.len() && #[trigger] t[i] == '_' ==> (i == 0 || !is_ascii_alnum(t[i - 1])) && (i
            + 1 == t.len() || !is_ascii_alnum(t[i + 1]))
    &&& t.len() > 0 && is_stray_digit(glyph_of(t.last())) ==> t.len() >= 2 && glyph_of(
        t[t.len() - 2],
    ) == Glyph::Gap
}

/// Where every character is kept, the kept positions are all positions.
proof fn lemma_all_positions_kept(t: Seq<char>)
    requires
        kept_chars(t).len() == t.len(),
    ensures
        kept_positions(t).len() == t.len(),
        forall|i: int| 0 <= i < t.len() ==> #[trigger] kept_positions(t)[i] == i,
    decreases t.len(),
{
    if t.len() > 0 {
        let h = t.drop_last();
        lemma_kept_positions(h);
        lemma_kept_positions(t);
        assert(kept_chars(h).len() <= h.len()) by {
            lemma_kept_is_shorter(h);
        }
        lemma_all_positions_kept(h);
        let before = kept_positions(h);
        let at = kept_positions(t);
        assert forall|i: int| 0 <= i < t.len() implies #[trigger] at[i] == i by {
            if i < h.len() {
                assert(at[i] == before[i]);
            }
        }
    }
}

/// The kept characters are no more than the characters.
proof fn lemma_kept_is_shorter(t: Seq<char>)
    ensures
        kept_chars(t).len() <= t.len(),
    decreases t.len(),
{
    if t.len() > 0 {
        lemma_kept_is_shorter(t.drop_last());
    }
}

/// A text that keeps every period and stands plainly is self-matching where
/// it is not empty and on one line: a plain way to tell that a text is found
/// by its own pattern.
pub proof fn lemma_plain_texts_stand(t: Seq<char>)
    requires
        keeps_every_period(t),
        stands_plainly(t),
    ensures
        stands_as_compiled(t),
{
    let g = normalized(t);
    let all = glyphs_of(t);
    let words = words_of(g);
    let spans = word_spans(g);
    let at = kept_positions(t);
    lemma_word_spans(g);
    lemma_all_positions_kept(t);
    assert(all.len() == t.len());
    assert forall|i: int| 0 <= i < g.len() implies g[i] == glyph_of(t[i]) by {
        assert(all[i] == glyph_of(t[i]));
    }
    if all.len() > 0 && is_stray_digit(all.last()) {
        assert(all.last() == glyph_of(t.last()));
        assert(g[t.len() - 2] == Glyph::Gap);
    }
    assert forall|j: int| 0 <= j < words.len() && is_retained(words, j) implies #[trigger] stands_in_text(
        t,
        j,
    ) by {
        let a = spans[j].0;
        let b = spans[j].1;
        assert(is_word_span(g, a, b));
        let w = words[j];
        assert(w == g.subrange(a, b));
        let span = lookahead_span(g, j, is_partial(t));
        lemma_lookahead_span(g, j, is_partial(t));
        assert(at[span.0] == span.0);
        assert(at[span.1 - 1] == span.1 - 1);
        if lookahead_of(w, is_partial(t)).bounded {
            assert(span == spans[j]);
            assert(all_plain(w));
            assert(w[0] is Plain);
            assert(w[0] == glyph_of(t[a]));
            assert(is_ascii_alnum(t[a]));
            assert(w[b - a - 1] is Plain);
            assert(w[b - a - 1] == glyph_of(t[b - 1]));
            assert(is_ascii_alnum(t[b - 1]));
            if a > 0 {
                assert(g[a - 1] == Glyph::Gap);
                assert(!is_ascii_alnum(t[a - 1]));
                if t[a - 1] == '_' {
                    assert(!is_ascii_alnum(t[a - 1 + 1]));
                }
            }
            if b < t.len() {
                if b == g.len() {
                    assert(g.len() == t.len() - 1);
                    assert(g[b - 1] != Glyph::Gap);
                    assert(false);
                }
                assert(g[b] == Glyph::Gap);
                assert(!is_ascii_alnum(t[b]));
                if t[b] == '_' {
                    assert(!is_ascii_alnum(t[b - 1]));
                }
            }
            assert(at_boundary(t, a));
            assert(at_boundary(t, b));
        }
    }
}

/// The pattern compiled from a repaired text matches that text, letter case
/// set aside, for the repaired texts that are not empty and hold what the
/// pattern asks for in its place.
pub proof fn lemma_repaired_text_is_found(t: Seq<char>)
    requires
        crate::repair::is_repaired_text(t),
        t.len() > 0,
        stands_as_compiled(t),
    ensures
        is_self_matching(t),
{
    assert forall|i: int| 0 <= i < t.len() implies t[i] != '\n' by {
        assert(crate::repair::is_kept(t[i]));
    }
    lemma_pattern_matches_own_text(t);
}

} // verus!
