//! Fuzzy patterns: from a recognized text to a regular expression that
//! tolerates the confusions recognition is known to make.
//!
//! A text is first normalized into glyphs: plain letters and digits,
//! confusable classes, and gaps. A short text that is a single token becomes
//! a fully anchored pattern; every other text becomes a row of lookahead
//! assertions, one per retained word.

use vstd::prelude::*;
use vstd::utf8::encode_utf8;
use crate::text::{
    append_chars, ascii_alnum, ascii_digit, ascii_lower, char_is_numeric, char_is_whitespace,
    chars_of, has_suffix, is_ascii_alnum, is_ascii_digit, is_numeric, is_whitespace, string_of,
    to_ascii_lower,
};

verus! {

/// A set of characters that recognition confuses with one another.
#[derive(Clone, Copy, Debug, PartialEq, Eq, Structural)]
pub enum Confusable {
    /// `0` and `O`.
    ZeroOh,
    /// `u`, `v` and `y`.
    Uvy,
    /// `t`, read also as `i`.
    Ti,
    /// `I`, `l`, `!` and `1`, read also as `i`.
    Stroke,
    /// `R`, read also as `k`.
    Rk,
    /// `m`, read also as `ra`.
    Em,
    /// `a`, read also as `o`.
    Ao,
}

/// One element of a normalized text.
#[derive(Clone, Copy, Debug, PartialEq, Eq, Structural)]
pub enum Glyph {
    /// An ASCII letter or digit that stands for itself.
    Plain(char),
    /// A character that belongs to a confusable class.
    Class(Confusable),
    /// Anything else: it separates words.
    Gap,
}

/// How a pattern is tied to the text it is matched against.
#[derive(Clone, Copy, Debug, PartialEq, Eq, Structural)]
pub enum AnchorMode {
    /// `^...$`: the pattern spans the whole candidate.
    FullyAnchored,
    /// A row of lookahead assertions followed by `.+`.
    WordAssertion,
}

/// A compiled pattern: the regular expression and how it is anchored.
#[derive(Debug)]
pub struct FuzzyPattern {
    pub regex: String,
    pub mode: AnchorMode,
}

/// One lookahead assertion of a word pattern.
pub ghost struct Lookahead {
    /// What must appear in the candidate.
    pub atoms: Seq<Glyph>,
    /// Whether it must appear between word boundaries.
    pub bounded: bool,
}

/// What a pattern says, before it is written out.
pub ghost enum PatternModel {
    /// First glyph, anything, the middle glyphs, anything, last glyph.
    Anchored(Seq<Glyph>),
    /// Every lookahead must hold, and the candidate must not be empty.
    Words(Seq<Lookahead>),
}

/// The confusable-class table.
pub open spec fn confusable_of(c: char) -> Option<Confusable> {
    if c == '0' || c == 'O' {
        Some(Confusable::ZeroOh)
    } else if c == 'u' || c == 'v' || c == 'y' {
        Some(Confusable::Uvy)
    } else if c == 't' {
        Some(Confusable::Ti)
    } else if c == 'I' || c == 'l' || c == '!' || c == '1' {
        Some(Confusable::Stroke)
    } else if c == 'R' {
        Some(Confusable::Rk)
    } else if c == 'm' {
        Some(Confusable::Em)
    } else if c == 'a' {
        Some(Confusable::Ao)
    } else {
        None
    }
}

/// The glyph that stands for the character `c`.
pub open spec fn glyph_of(c: char) -> Glyph {
    match confusable_of(c) {
        Some(k) => Glyph::Class(k),
        None => if is_ascii_alnum(c) {
            Glyph::Plain(c)
        } else {
            Glyph::Gap
        },
    }
}

/// A period that reads as a decimal point: it follows a numeric character
/// that follows white space, more than three characters into the text.
pub open spec fn is_decimal_point(kept: Seq<char>, c: char) -> bool {
    c == '.' && kept.len() > 3 && char_is_numeric(kept[kept.len() - 1]) && char_is_whitespace(
        kept[kept.len() - 2],
    )
}

/// The characters of `t` without its decimal points.
pub open spec fn kept_chars(t: Seq<char>) -> Seq<char>
    decreases t.len(),
{
    if t.len() == 0 {
        t
    } else {
        let kept = kept_chars(t.drop_last());
        if is_decimal_point(kept, t.last()) {
            kept
        } else {
            kept.push(t.last())
        }
    }
}

/// The glyphs that stand for the characters of `chars`.
pub open spec fn glyphs_of(chars: Seq<char>) -> Seq<Glyph> {
    chars.map_values(|c: char| glyph_of(c))
}

/// A plain glyph that is a decimal digit.
pub open spec fn is_stray_digit(g: Glyph) -> bool {
    match g {
        Glyph::Plain(c) => is_ascii_digit(c),
        _ => false,
    }
}

/// The normalized form of `t`: the glyphs of its kept characters, without a
/// digit that would stand last.
pub open spec fn normalized(t: Seq<char>) -> Seq<Glyph> {
    let g = glyphs_of(kept_chars(t));
    if g.len() > 0 && is_stray_digit(g.last()) {
        g.drop_last()
    } else {
        g
    }
}

/// One of the glyphs is a gap.
pub open spec fn has_gap(g: Seq<Glyph>) -> bool {
    exists|i: int| 0 <= i < g.len() && g[i] == Glyph::Gap
}

/// The words of `g`: its maximal runs of glyphs that are no gaps.
pub open spec fn words_of(g: Seq<Glyph>) -> Seq<Seq<Glyph>>
    decreases g.len(),
{
    if g.len() == 0 {
        Seq::empty()
    } else {
        let before = words_of(g.drop_last());
        if g.last() == Glyph::Gap {
            before
        } else if g.len() >= 2 && g[g.len() - 2] != Glyph::Gap && before.len() > 0 {
            before.drop_last().push(before.last().push(g.last()))
        } else {
            before.push(seq![g.last()])
        }
    }
}

/// How many characters a word takes when written out.
pub open spec fn word_width(w: Seq<Glyph>) -> nat {
    glyphs_text(w).len()
}

/// A word that is one plain character.
pub open spec fn is_single(w: Seq<Glyph>) -> bool {
    w.len() == 1 && w[0] is Plain
}

/// The word `x` or `X`.
pub open spec fn is_cross(w: Seq<Glyph>) -> bool {
    w.len() == 1 && (w[0] == Glyph::Plain('x') || w[0] == Glyph::Plain('X'))
}

/// Whether word `i` of `words` gets a lookahead: a word of one plain
/// character does so only as the first or last word, and never as `x`.
pub open spec fn is_retained(words: Seq<Seq<Glyph>>, i: int) -> bool {
    !(is_single(words[i]) && ((0 < i && i < words.len() - 1) || is_cross(words[i])))
}

/// Every glyph of `w` is a plain character.
pub open spec fn all_plain(w: Seq<Glyph>) -> bool {
    forall|i: int| 0 <= i < w.len() ==> w[i] is Plain
}

/// The first two and the last two glyphs of `w` are plain characters.
pub open spec fn edges_plain(w: Seq<Glyph>) -> bool {
    w.len() >= 4 && w[0] is Plain && w[1] is Plain && w[w.len() - 2] is Plain && w[w.len()
        - 1] is Plain
}

/// The lookahead for the word `w`. In a long text a word wider than four
/// characters loses its first two and last two characters, unless a class
/// reaches into them; such words are not held to word boundaries. Any other
/// word is held to word boundaries where it is plain throughout.
pub open spec fn lookahead_of(w: Seq<Glyph>, partial: bool) -> Lookahead {
    if partial && word_width(w) > 4 {
        if edges_plain(w) {
            Lookahead { atoms: w.subrange(2, w.len() - 2), bounded: false }
        } else {
            Lookahead { atoms: w, bounded: false }
        }
    } else {
        Lookahead { atoms: w, bounded: all_plain(w) }
    }
}

/// The lookaheads of the first `upto` words.
pub open spec fn lookaheads_of(words: Seq<Seq<Glyph>>, partial: bool, upto: int) -> Seq<Lookahead>
    decreases upto,
{
    if upto <= 0 {
        Seq::empty()
    } else {
        let before = lookaheads_of(words, partial, upto - 1);
        if is_retained(words, upto - 1) {
            before.push(lookahead_of(words[upto - 1], partial))
        } else {
            before
        }
    }
}

/// A text of fewer than six bytes.
pub open spec fn is_short(t: Seq<char>) -> bool {
    encode_utf8(t).len() < 6
}

/// A text of more than twenty-three bytes.
pub open spec fn is_partial(t: Seq<char>) -> bool {
    encode_utf8(t).len() > 23
}

/// The pattern for the text `t`.
pub open spec fn compile(t: Seq<char>) -> PatternModel {
    let g = normalized(t);
    if is_short(t) && !has_gap(g) {
        PatternModel::Anchored(g)
    } else {
        let words = words_of(g);
        PatternModel::Words(lookaheads_of(words, is_partial(t), words.len() as int))
    }
}

/// How the pattern that `m` says is anchored.
pub open spec fn mode_of(m: PatternModel) -> AnchorMode {
    match m {
        PatternModel::Anchored(_) => AnchorMode::FullyAnchored,
        PatternModel::Words(_) => AnchorMode::WordAssertion,
    }
}

/// A class as a bracket expression, in small letters.
pub open spec fn class_text(k: Confusable) -> Seq<char> {
    match k {
        Confusable::ZeroOh => seq!['[', '0', 'o', ']'],
        Confusable::Uvy => seq!['[', 'u', 'v', 'y', ']'],
        Confusable::Ti => seq!['[', 't', 'i', ']'],
        Confusable::Stroke => seq!['[', 'i', 'l', '!', '1', 'i', ']'],
        Confusable::Rk => seq!['[', 'r', 'k', ']'],
        Confusable::Em => seq!['(', 'm', '|', 'r', 'a', ')'],
        Confusable::Ao => seq!['[', 'a', 'o', ']'],
    }
}

/// A glyph written out, in small letters.
pub open spec fn glyph_text(g: Glyph) -> Seq<char> {
    match g {
        Glyph::Plain(c) => seq![ascii_lower(c)],
        Glyph::Class(k) => class_text(k),
        Glyph::Gap => seq![' '],
    }
}

/// A row of glyphs written out.
pub open spec fn glyphs_text(gs: Seq<Glyph>) -> Seq<char>
    decreases gs.len(),
{
    if gs.len() == 0 {
        Seq::empty()
    } else {
        glyphs_text(gs.drop_last()) + glyph_text(gs.last())
    }
}

/// `.*`, which stands for any run of characters.
pub open spec fn wildcard_text() -> Seq<char> {
    seq!['.', '*']
}

/// `^`, the first glyph, `.*`, the glyphs between, `.*`, the last glyph,
/// `$`. A single glyph is written `^.*g$`, and no glyph at all `^$`.
pub open spec fn anchored_text(gs: Seq<Glyph>) -> Seq<char> {
    if gs.len() == 0 {
        seq!['^', '$']
    } else if gs.len() == 1 {
        seq!['^'] + wildcard_text() + glyph_text(gs[0]) + seq!['$']
    } else {
        seq!['^'] + glyph_text(gs[0]) + wildcard_text() + glyphs_text(
            gs.subrange(1, gs.len() - 1),
        ) + wildcard_text() + glyph_text(gs.last()) + seq!['$']
    }
}

/// `\b`, which stands for a word boundary.
pub open spec fn boundary_text() -> Seq<char> {
    seq!['\\', 'b']
}

/// `(?=.*word)`, or `(?=.*\bword\b)` where the word is bounded.
pub open spec fn lookahead_text(l: Lookahead) -> Seq<char> {
    if l.bounded {
        seq!['(', '?', '=', '.', '*'] + boundary_text() + glyphs_text(l.atoms) + boundary_text()
            + seq![')']
    } else {
        seq!['(', '?', '=', '.', '*'] + glyphs_text(l.atoms) + seq![')']
    }
}

/// A row of lookaheads written out.
pub open spec fn lookaheads_text(ls: Seq<Lookahead>) -> Seq<char>
    decreases ls.len(),
{
    if ls.len() == 0 {
        Seq::empty()
    } else {
        lookaheads_text(ls.drop_last()) + lookahead_text(ls.last())
    }
}

/// The regular expression that says what `m` says.
pub open spec fn pattern_text(m: PatternModel) -> Seq<char> {
    match m {
        PatternModel::Anchored(gs) => anchored_text(gs),
        PatternModel::Words(ls) => lookaheads_text(ls) + seq!['.', '+'],
    }
}

/// Looks a character up in the confusable-class table.
pub fn classify(c: char) -> (g: Glyph)
    ensures
        g == glyph_of(c),
{
    if c == '0' || c == 'O' {
        Glyph::Class(Confusable::ZeroOh)
    } else if c == 'u' || c == 'v' || c == 'y' {
        Glyph::Class(Confusable::Uvy)
    } else if c == 't' {
        Glyph::Class(Confusable::Ti)
    } else if c == 'I' || c == 'l' || c == '!' || c == '1' {
        Glyph::Class(Confusable::Stroke)
    } else if c == 'R' {
        Glyph::Class(Confusable::Rk)
    } else if c == 'm' {
        Glyph::Class(Confusable::Em)
    } else if c == 'a' {
        Glyph::Class(Confusable::Ao)
    } else if ascii_alnum(c) {
        Glyph::Plain(c)
    } else {
        Glyph::Gap
    }
}

/// Writes one glyph out.
pub fn render_glyph(g: Glyph) -> (out: Vec<char>)
    ensures
        out@ == glyph_text(g),
{
    match g {
        Glyph::Plain(c) => vec![to_ascii_lower(c)],
        Glyph::Class(Confusable::ZeroOh) => vec!['[', '0', 'o', ']'],
        Glyph::Class(Confusable::Uvy) => vec!['[', 'u', 'v', 'y', ']'],
        Glyph::Class(Confusable::Ti) => vec!['[', 't', 'i', ']'],
        Glyph::Class(Confusable::Stroke) => vec!['[', 'i', 'l', '!', '1', 'i', ']'],
        Glyph::Class(Confusable::Rk) => vec!['[', 'r', 'k', ']'],
        Glyph::Class(Confusable::Em) => vec!['(', 'm', '|', 'r', 'a', ')'],
        Glyph::Class(Confusable::Ao) => vec!['[', 'a', 'o', ']'],
        Glyph::Gap => vec![' '],
    }
}

/// Writes the glyphs of `gs` from `from` up to `to` onto `out`.
fn render_glyphs(out: &mut Vec<char>, gs: &Vec<Glyph>, from: usize, to: usize)
    requires
        from <= to <= gs.len(),
    ensures
        final(out)@ == old(out)@ + glyphs_text(gs@.subrange(from as int, to as int)),
{
    let mut i: usize = from;
    assert(gs@.subrange(from as int, from as int) =~= Seq::<Glyph>::empty());
    assert(out@ =~= old(out)@ + glyphs_text(gs@.subrange(from as int, i as int)));
    while i < to
        invariant
            from <= i <= to <= gs.len(),
            out@ == old(out)@ + glyphs_text(gs@.subrange(from as int, i as int)),
        decreases to - i,
    {
        let piece = render_glyph(gs[i]);
        let ghost before = out@;
        append_chars(out, &piece);
        i += 1;
        proof {
            let now = gs@.subrange(from as int, i as int);
            assert(now.drop_last() =~= gs@.subrange(from as int, i - 1));
            assert(now.last() == gs@[i - 1]);
            assert(out@ =~= old(out)@ + glyphs_text(now));
        }
    }
}

/// The normalized form of a text.
pub fn normalize(chars: &Vec<char>) -> (glyphs: Vec<Glyph>)
    ensures
        glyphs@ == normalized(chars@),
{
    let mut kept: Vec<char> = Vec::new();
    let mut glyphs: Vec<Glyph> = Vec::new();
    let mut i: usize = 0;
    assert(chars@.take(0) =~= Seq::<char>::empty());
    assert(glyphs@ =~= glyphs_of(kept@));
    while i < chars.len()
        invariant
            i <= chars.len(),
            kept@ == kept_chars(chars@.take(i as int)),
            glyphs@ == glyphs_of(kept@),
        decreases chars.len() - i,
    {
        let c = chars[i];
        let n = kept.len();
        let dropped = c == '.' && n > 3 && is_numeric(kept[n - 1]) && is_whitespace(kept[n - 2]);
        proof {
            let now = chars@.take(i + 1);
            assert(now.drop_last() =~= chars@.take(i as int));
            assert(now.last() == c);
        }
        if !dropped {
            kept.push(c);
            glyphs.push(classify(c));
            assert(glyphs@ =~= glyphs_of(kept@));
        }
        i += 1;
    }
    assert(chars@.take(chars.len() as int) =~= chars@);
    let m = glyphs.len();
    if m > 0 {
        let stray = match glyphs[m - 1] {
            Glyph::Plain(c) => ascii_digit(c),
            _ => false,
        };
        if stray {
            glyphs.pop();
        }
    }
    glyphs
}

fn contains_gap(glyphs: &Vec<Glyph>) -> (b: bool)
    ensures
        b == has_gap(glyphs@),
{
    let mut i: usize = 0;
    while i < glyphs.len()
        invariant
            i <= glyphs.len(),
            forall|j: int| 0 <= j < i ==> glyphs@[j] != Glyph::Gap,
        decreases glyphs.len() - i,
    {
        if glyphs[i] == Glyph::Gap {
            return true;
        }
        i += 1;
    }
    false
}

/// The texts that the words of `v` hold.
pub open spec fn words_view(v: Seq<Vec<Glyph>>) -> Seq<Seq<Glyph>> {
    v.map_values(|w: Vec<Glyph>| w@)
}

/// Splits a normalized text into its words.
pub fn split_words(glyphs: &Vec<Glyph>) -> (words: Vec<Vec<Glyph>>)
    ensures
        words_view(words@) == words_of(glyphs@),
{
    let mut words: Vec<Vec<Glyph>> = Vec::new();
    let mut current: Vec<Glyph> = Vec::new();
    let mut i: usize = 0;
    assert(glyphs@.take(0) =~= Seq::<Glyph>::empty());
    assert(words_view(words@) =~= Seq::<Seq<Glyph>>::empty());
    while i < glyphs.len()
        invariant
            i <= glyphs.len(),
            current.len() > 0 <==> (i > 0 && glyphs@[i - 1] != Glyph::Gap),
            words_of(glyphs@.take(i as int)) == if current.len() > 0 {
                words_view(words@).push(current@)
            } else {
                words_view(words@)
            },
        decreases glyphs.len() - i,
    {
        let g = glyphs[i];
        proof {
            let now = glyphs@.take(i + 1);
            assert(now.drop_last() =~= glyphs@.take(i as int));
            assert(now.last() == g);
            if i > 0 {
                assert(now[now.len() - 2] == glyphs@[i - 1]);
            }
        }
        let ghost before = words_view(words@);
        let ghost open_word = current@;
        if g == Glyph::Gap {
            if current.len() > 0 {
                words.push(current);
                current = Vec::new();
                assert(words_view(words@) =~= before.push(open_word));
            }
        } else {
            current.push(g);
            proof {
                if open_word.len() > 0 {
                    assert(before.push(open_word).drop_last() =~= before);
                } else {
                    assert(current@ =~= seq![g]);
                }
            }
        }
        i += 1;
    }
    assert(glyphs@.take(glyphs.len() as int) =~= glyphs@);
    if current.len() > 0 {
        let ghost before = words_view(words@);
        let ghost open_word = current@;
        words.push(current);
        assert(words_view(words@) =~= before.push(open_word));
    }
    words
}

fn is_all_plain(w: &Vec<Glyph>) -> (b: bool)
    ensures
        b == all_plain(w@),
{
    let mut i: usize = 0;
    while i < w.len()
        invariant
            i <= w.len(),
            forall|j: int| 0 <= j < i ==> w@[j] is Plain,
        decreases w.len() - i,
    {
        match w[i] {
            Glyph::Plain(_) => {},
            _ => {
                return false;
            },
        }
        i += 1;
    }
    true
}

fn is_plain(g: Glyph) -> (b: bool)
    ensures
        b == (g is Plain),
{
    match g {
        Glyph::Plain(_) => true,
        _ => false,
    }
}

/// Writes the lookahead for the word `w` onto `out`.
fn render_lookahead(out: &mut Vec<char>, w: &Vec<Glyph>, partial: bool)
    ensures
        final(out)@ == old(out)@ + lookahead_text(lookahead_of(w@, partial)),
{
    let ghost start = out@;
    let n = w.len();
    let mut body: Vec<char> = Vec::new();
    render_glyphs(&mut body, w, 0, n);
    assert(w@.subrange(0, n as int) =~= w@);
    assert(body@ =~= glyphs_text(w@));
    let open: Vec<char> = vec!['(', '?', '=', '.', '*'];
    let close: Vec<char> = vec![')'];
    let edge: Vec<char> = vec!['\\', 'b'];
    append_chars(out, &open);
    if partial && body.len() > 4 {
        if n >= 4 && is_plain(w[0]) && is_plain(w[1]) && is_plain(w[n - 2]) && is_plain(w[n - 1]) {
            render_glyphs(out, w, 2, n - 2);
        } else {
            append_chars(out, &body);
        }
        append_chars(out, &close);
    } else {
        if is_all_plain(w) {
            append_chars(out, &edge);
            append_chars(out, &body);
            append_chars(out, &edge);
        } else {
            append_chars(out, &body);
        }
        append_chars(out, &close);
    }
    assert(out@ =~= start + lookahead_text(lookahead_of(w@, partial)));
}

/// Writes the fully anchored pattern for `gs`.
fn render_anchored(gs: &Vec<Glyph>) -> (out: Vec<char>)
    ensures
        out@ == anchored_text(gs@),
{
    let n = gs.len();
    let wildcard: Vec<char> = vec!['.', '*'];
    let mut out: Vec<char> = vec!['^'];
    if n == 1 {
        append_chars(&mut out, &wildcard);
        append_chars(&mut out, &render_glyph(gs[0]));
    } else if n >= 2 {
        append_chars(&mut out, &render_glyph(gs[0]));
        append_chars(&mut out, &wildcard);
        render_glyphs(&mut out, gs, 1, n - 1);
        append_chars(&mut out, &wildcard);
        append_chars(&mut out, &render_glyph(gs[n - 1]));
    }
    out.push('$');
    assert(out@ =~= anchored_text(gs@));
    out
}

/// Writes the word pattern for `words`.
fn render_words(words: &Vec<Vec<Glyph>>, partial: bool) -> (out: Vec<char>)
    ensures
        out@ == lookaheads_text(
            lookaheads_of(words_view(words@), partial, words.len() as int),
        ) + seq!['.', '+'],
{
    let n = words.len();
    let mut out: Vec<char> = Vec::new();
    let mut i: usize = 0;
    let ghost ws = words_view(words@);
    while i < n
        invariant
            i <= n,
            n == words.len(),
            ws == words_view(words@),
            out@ == lookaheads_text(lookaheads_of(ws, partial, i as int)),
        decreases n - i,
    {
        let w = &words[i];
        assert(ws[i as int] == w@);
        let single = w.len() == 1 && is_plain(w[0]);
        let cross = w.len() == 1 && (w[0] == Glyph::Plain('x') || w[0] == Glyph::Plain('X'));
        let skipped = single && ((0 < i && i < n - 1) || cross);
        let ghost before = lookaheads_of(ws, partial, i as int);
        if !skipped {
            render_lookahead(&mut out, w, partial);
            proof {
                let now = before.push(lookahead_of(w@, partial));
                assert(now.drop_last() =~= before);
            }
        }
        i += 1;
    }
    out.push('.');
    out.push('+');
    assert(out@ =~= lookaheads_text(lookaheads_of(ws, partial, n as int)) + seq!['.', '+']);
    out
}

/// Compiles the pattern for `text`.
pub fn compile_pattern(text: &str) -> (p: FuzzyPattern)
    ensures
        p.regex@ == pattern_text(compile(text@)),
        p.mode == mode_of(compile(text@)),
        p.mode == AnchorMode::WordAssertion ==> has_suffix(p.regex@, seq!['.', '+']),
{
    let bytes = text.as_bytes().len();
    let chars = chars_of(text);
    let glyphs = normalize(&chars);
    if bytes < 6 && !contains_gap(&glyphs) {
        let out = render_anchored(&glyphs);
        FuzzyPattern { regex: string_of(&out), mode: AnchorMode::FullyAnchored }
    } else {
        let words = split_words(&glyphs);
        let out = render_words(&words, bytes > 23);
        proof {
            let ls = lookaheads_of(words_of(glyphs@), is_partial(text@), words.len() as int);
            let whole = lookaheads_text(ls) + seq!['.', '+'];
            assert(whole.subrange(whole.len() - 2, whole.len() as int) =~= seq!['.', '+']);
        }
        FuzzyPattern { regex: string_of(&out), mode: AnchorMode::WordAssertion }
    }
}

/// The regular expression that finds `text` in spite of the usual misreadings.
pub fn regexify_text(text: &String) -> (regex: String)
    ensures
        regex@ == pattern_text(compile(text@)),
{
    compile_pattern(text.as_str()).regex
}

/// One lookahead assertion, ready to be tried on a text.
#[derive(Debug)]
pub struct Assertion {
    /// What must appear in the candidate.
    pub atoms: Vec<Glyph>,
    /// Whether it must appear between word boundaries.
    pub bounded: bool,
}

/// A compiled pattern, ready to be tried on a text.
#[derive(Debug)]
pub enum Compiled {
    /// First glyph, anything, the middle glyphs, anything, last glyph.
    Anchored(Vec<Glyph>),
    /// Every lookahead must hold, and the candidate must not be empty.
    Words(Vec<Assertion>),
}

impl View for Assertion {
    type V = Lookahead;

    open spec fn view(&self) -> Lookahead {
        Lookahead { atoms: self.atoms@, bounded: self.bounded }
    }
}

/// The lookaheads that the assertions of `v` are.
pub open spec fn assertions_view(v: Seq<Assertion>) -> Seq<Lookahead> {
    v.map_values(|a: Assertion| a@)
}

impl View for Compiled {
    type V = PatternModel;

    open spec fn view(&self) -> PatternModel {
        match *self {
            Compiled::Anchored(gs) => PatternModel::Anchored(gs@),
            Compiled::Words(ls) => PatternModel::Words(assertions_view(ls@)),
        }
    }
}

/// Copies the glyphs of `w` from `from` up to `to`.
fn glyphs_between(w: &Vec<Glyph>, from: usize, to: usize) -> (out: Vec<Glyph>)
    requires
        from <= to <= w.len(),
    ensures
        out@ == w@.subrange(from as int, to as int),
{
    let mut out: Vec<Glyph> = Vec::new();
    let mut i: usize = from;
    while i < to
        invariant
            from <= i <= to <= w.len(),
            out@ == w@.subrange(from as int, i as int),
        decreases to - i,
    {
        out.push(w[i]);
        i += 1;
        assert(w@.subrange(from as int, i as int) == w@.subrange(from as int, i - 1).push(
            w@[i - 1],
        ));
    }
    out
}

/// Makes the lookahead for the word `w`.
pub fn assertion_for(w: &Vec<Glyph>, partial: bool) -> (a: Assertion)
    ensures
        a@ == lookahead_of(w@, partial),
{
    let n = w.len();
    let mut body: Vec<char> = Vec::new();
    render_glyphs(&mut body, w, 0, n);
    assert(w@.subrange(0, n as int) =~= w@);
    assert(body@ =~= glyphs_text(w@));
    if partial && body.len() > 4 {
        if n >= 4 && is_plain(w[0]) && is_plain(w[1]) && is_plain(w[n - 2]) && is_plain(w[n - 1]) {
            Assertion { atoms: glyphs_between(w, 2, n - 2), bounded: false }
        } else {
            Assertion { atoms: glyphs_between(w, 0, n), bounded: false }
        }
    } else {
        Assertion { atoms: glyphs_between(w, 0, n), bounded: is_all_plain(w) }
    }
}

/// Makes the lookaheads for the words of a text, leaving out the words that
/// get none.
pub fn assertions_for(words: &Vec<Vec<Glyph>>, partial: bool) -> (out: Vec<Assertion>)
    ensures
        assertions_view(out@) == lookaheads_of(words_view(words@), partial, words.len() as int),
{
    let n = words.len();
    let mut out: Vec<Assertion> = Vec::new();
    let mut i: usize = 0;
    let ghost ws = words_view(words@);
    assert(assertions_view(out@) =~= Seq::<Lookahead>::empty());
    while i < n
        invariant
            i <= n,
            n == words.len(),
            ws == words_view(words@),
            assertions_view(out@) == lookaheads_of(ws, partial, i as int),
        decreases n - i,
    {
        let w = &words[i];
        assert(ws[i as int] == w@);
        let single = w.len() == 1 && is_plain(w[0]);
        let cross = w.len() == 1 && (w[0] == Glyph::Plain('x') || w[0] == Glyph::Plain('X'));
        let skipped = single && ((0 < i && i < n - 1) || cross);
        if !skipped {
            let ghost before = assertions_view(out@);
            let a = assertion_for(w, partial);
            out.push(a);
            assert(assertions_view(out@) =~= before.push(lookahead_of(w@, partial)));
        }
        i += 1;
    }
    out
}

/// Compiles the pattern for `text` into the form that can be tried on a
/// candidate.
pub fn compile_model(text: &str) -> (m: Compiled)
    ensures
        m@ == compile(text@),
{
    let bytes = text.as_bytes().len();
    let chars = chars_of(text);
    let glyphs = normalize(&chars);
    if bytes < 6 && !contains_gap(&glyphs) {
        Compiled::Anchored(glyphs)
    } else {
        let words = split_words(&glyphs);
        Compiled::Words(assertions_for(&words, bytes > 23))
    }
}

} // verus!
