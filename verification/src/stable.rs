//! What repair guarantees of its result, and which texts it leaves alone.

use vstd::prelude::*;
use crate::repair::{
    collapse_spaces, corner_quote, drop_trailing_hyphen, fix_misreads, fix_trailing_runs, is_kept,
    is_repaired_text, line_break, long_dash, mend_line_breaks, mended_piece, mended_upto,
    normalize_dashes, repaired, replace_suffix, retain_kept, strip_leading_artifact,
    strip_trailing_break, tidy_spaces, trim_end_spaces, trim_start_spaces,
};
use crate::text::{
    contains_text, first_match, has_prefix, has_suffix, is_ascii_alnum, lemma_first_match_none,
    matches_at, replace_first,
};

verus! {

/// Every character of `s` is one that a repaired text is made of.
pub open spec fn all_kept(s: Seq<char>) -> bool {
    forall|i: int| 0 <= i < s.len() ==> is_kept(#[trigger] s[i])
}

/// No space of `s` follows a space.
pub open spec fn no_double_space(s: Seq<char>) -> bool {
    forall|i: int| 0 < i < s.len() ==> !(s[i - 1] == ' ' && #[trigger] s[i] == ' ')
}

/// A text that repair leaves as it is: a repaired text that begins with an
/// ASCII letter or digit, holds no `IR`, and ends neither in a hyphen nor in
/// one of the runs that repair rewrites.
pub open spec fn is_settled(t: Seq<char>) -> bool {
    &&& is_repaired_text(t)
    &&& t.len() > 0 ==> is_ascii_alnum(t[0]) && t.last() != '-'
    &&& !contains_text(t, seq!['I', 'R'])
    &&& !has_suffix(t, seq!['m', 'n'])
    &&& !has_suffix(t, seq!['1', 'l', 'l'])
    &&& !has_suffix(t, seq!['l', 'l', 'l'])
    &&& !has_suffix(t, seq!['I', 'l'])
}

proof fn lemma_retain_kept_all_kept(s: Seq<char>)
    ensures
        all_kept(retain_kept(s)),
{
    let keep = |c: char| is_kept(c);
    let out = s.filter(keep);
    assert forall|i: int| 0 <= i < out.len() implies is_kept(#[trigger] out[i]) by {
        s.lemma_filter_pred(keep, i);
    }
}

proof fn lemma_replace_suffix_all_kept(s: Seq<char>, from: Seq<char>, to: Seq<char>)
    requires
        all_kept(s),
        all_kept(to),
    ensures
        all_kept(replace_suffix(s, from, to)),
{
    let out = replace_suffix(s, from, to);
    if has_suffix(s, from) {
        let head = s.take(s.len() - from.len());
        assert forall|i: int| 0 <= i < out.len() implies is_kept(#[trigger] out[i]) by {
            if i < head.len() {
                assert(out[i] == s[i]);
            } else {
                assert(out[i] == to[i - head.len()]);
            }
        }
    }
}

proof fn lemma_fix_trailing_runs_all_kept(s: Seq<char>)
    requires
        all_kept(s),
    ensures
        all_kept(fix_trailing_runs(s)),
{
    let three = seq!['I', 'I', 'I'];
    let bangs = seq!['!', '!', '!'];
    let two = seq!['I', 'I'];
    assert(all_kept(three));
    assert(all_kept(bangs));
    assert(all_kept(two));
    let a = replace_suffix(s, seq!['m', 'n'], three);
    lemma_replace_suffix_all_kept(s, seq!['m', 'n'], three);
    let b = replace_suffix(a, seq!['1', 'l', 'l'], three);
    lemma_replace_suffix_all_kept(a, seq!['1', 'l', 'l'], three);
    let c = replace_suffix(b, seq!['l', 'l', 'l'], bangs);
    lemma_replace_suffix_all_kept(b, seq!['l', 'l', 'l'], bangs);
    lemma_replace_suffix_all_kept(c, seq!['I', 'l'], two);
}

/// Collapsing keeps the kinds of characters, leaves no space after a space,
/// and ends as the text ended.
proof fn lemma_collapse_spaces(s: Seq<char>)
    ensures
        all_kept(s) ==> all_kept(collapse_spaces(s)),
        no_double_space(collapse_spaces(s)),
        s.len() > 0 ==> collapse_spaces(s).len() > 0 && collapse_spaces(s).last() == s.last(),
        s.len() == 0 ==> collapse_spaces(s).len() == 0,
    decreases s.len(),
{
    if s.len() > 0 {
        let h = s.drop_last();
        lemma_collapse_spaces(h);
        let before = collapse_spaces(h);
        let out = collapse_spaces(s);
        if all_kept(s) {
            assert forall|i: int| 0 <= i < h.len() implies is_kept(#[trigger] h[i]) by {
                assert(h[i] == s[i]);
            }
            assert forall|i: int| 0 <= i < out.len() implies is_kept(#[trigger] out[i]) by {
                if i < before.len() {
                    assert(out[i] == before[i]);
                } else {
                    assert(out[i] == s.last());
                }
            }
        }
        if s.last() == ' ' && s.len() >= 2 && s[s.len() - 2] == ' ' {
            assert(h.last() == s[s.len() - 2]);
        } else {
            assert forall|i: int| 0 < i < out.len() implies !(out[i - 1] == ' ' && #[trigger] out[i]
                == ' ') by {
                if i < before.len() {
                    assert(out[i] == before[i]);
                    assert(out[i - 1] == before[i - 1]);
                } else {
                    assert(out[i] == s.last());
                    assert(out[i - 1] == before.last());
                    assert(h.last() == s[s.len() - 2]);
                }
            }
        }
    }
}

/// Trimming at the start cuts a text down to one of its tails, which does
/// not begin with a space.
proof fn lemma_trim_start_spaces(s: Seq<char>)
    ensures
        exists|k: int| 0 <= k <= s.len() && trim_start_spaces(s) == s.skip(k),
        trim_start_spaces(s).len() > 0 ==> trim_start_spaces(s)[0] != ' ',
    decreases s.len(),
{
    if s.len() > 0 && s[0] == ' ' {
        lemma_trim_start_spaces(s.skip(1));
        let k = choose|k: int| 0 <= k <= s.skip(1).len() && trim_start_spaces(s.skip(1)) == s.skip(
            1,
        ).skip(k);
        assert(s.skip(1).skip(k) =~= s.skip(k + 1));
    } else {
        assert(s.skip(0) =~= s);
    }
}

/// Trimming at the end cuts a text down to one of its heads, which does not
/// end with a space.
proof fn lemma_trim_end_spaces(s: Seq<char>)
    ensures
        exists|k: int| 0 <= k <= s.len() && trim_end_spaces(s) == s.take(k),
        trim_end_spaces(s).len() > 0 ==> trim_end_spaces(s).last() != ' ',
    decreases s.len(),
{
    if s.len() > 0 && s.last() == ' ' {
        lemma_trim_end_spaces(s.drop_last());
        let k = choose|k: int|
            0 <= k <= s.drop_last().len() && trim_end_spaces(s.drop_last()) == s.drop_last().take(
                k,
            );
        assert(s.drop_last().take(k) =~= s.take(k));
    } else {
        assert(s.take(s.len() as int) =~= s);
    }
}

/// A piece cut out of a text keeps the kinds of characters and has no space
/// after a space where the text had none.
proof fn lemma_piece_keeps(s: Seq<char>, a: int, b: int)
    requires
        0 <= a <= b <= s.len(),
    ensures
        all_kept(s) ==> all_kept(s.subrange(a, b)),
        no_double_space(s) ==> no_double_space(s.subrange(a, b)),
{
    let p = s.subrange(a, b);
    if all_kept(s) {
        assert forall|i: int| 0 <= i < p.len() implies is_kept(#[trigger] p[i]) by {
            assert(p[i] == s[a + i]);
        }
    }
    if no_double_space(s) {
        assert forall|i: int| 0 < i < p.len() implies !(p[i - 1] == ' ' && #[trigger] p[i]
            == ' ') by {
            assert(p[i] == s[a + i]);
            assert(p[i - 1] == s[a + i - 1]);
        }
    }
}

proof fn lemma_tidy_spaces(s: Seq<char>)
    requires
        all_kept(s),
    ensures
        is_repaired_text(tidy_spaces(s)),
{
    lemma_collapse_spaces(s);
    let a = collapse_spaces(s);
    let b = drop_trailing_hyphen(a);
    if a.len() > 0 {
        assert(a.drop_last() =~= a.subrange(0, a.len() - 1));
        lemma_piece_keeps(a, 0, a.len() - 1);
    }
    lemma_trim_start_spaces(b);
    let c = trim_start_spaces(b);
    let k = choose|k: int| 0 <= k <= b.len() && c == b.skip(k);
    assert(b.skip(k) =~= b.subrange(k, b.len() as int));
    lemma_piece_keeps(b, k, b.len() as int);
    lemma_trim_end_spaces(c);
    let d = trim_end_spaces(c);
    let m = choose|m: int| 0 <= m <= c.len() && d == c.take(m);
    assert(c.take(m) =~= c.subrange(0, m));
    lemma_piece_keeps(c, 0, m);
    if d.len() > 0 {
        assert(d[0] == c[0]);
    }
}

/// Whatever the text, its repair is made of kept characters only, has no
/// space after a space, and neither begins nor ends with a space.
pub proof fn lemma_repaired_is_repaired_text(s: Seq<char>)
    ensures
        is_repaired_text(repaired(s)),
{
    let e = mend_line_breaks(
        fix_misreads(strip_leading_artifact(normalize_dashes(strip_trailing_break(s)))),
    );
    lemma_retain_kept_all_kept(e);
    lemma_fix_trailing_runs_all_kept(retain_kept(e));
    lemma_tidy_spaces(fix_trailing_runs(retain_kept(e)));
}

/// A text without a given character holds no text with that character.
proof fn lemma_no_match_without_char(t: Seq<char>, pat: Seq<char>, k: int)
    requires
        0 <= k < pat.len(),
        forall|i: int| 0 <= i < t.len() ==> t[i] != pat[k],
    ensures
        first_match(t, pat) is None,
        forall|j: int| !matches_at(t, pat, j),
{
    assert forall|j: int| !matches_at(t, pat, j) by {
        if matches_at(t, pat, j) {
            assert(t.subrange(j, j + pat.len())[k] == pat[k]);
        }
    }
    lemma_first_match_none(t, pat, 0);
}

proof fn lemma_mend_without_breaks(t: Seq<char>, upto: int)
    requires
        0 <= upto <= t.len(),
        forall|i: int| 0 <= i < t.len() ==> t[i] != line_break(),
    ensures
        mended_upto(t, upto) == t.take(upto),
    decreases upto,
{
    if upto > 0 {
        lemma_mend_without_breaks(t, upto - 1);
        assert(mended_piece(t, upto - 1) == seq![t[upto - 1]]);
        assert(t.take(upto) =~= t.take(upto - 1) + seq![t[upto - 1]]);
    } else {
        assert(t.take(0) =~= Seq::<char>::empty());
    }
}

proof fn lemma_retain_all_kept(t: Seq<char>)
    requires
        all_kept(t),
    ensures
        retain_kept(t) == t,
    decreases t.len(),
{
    reveal(Seq::filter);
    let keep = |c: char| is_kept(c);
    if t.len() > 0 {
        let h = t.drop_last();
        assert forall|i: int| 0 <= i < h.len() implies is_kept(#[trigger] h[i]) by {
            assert(h[i] == t[i]);
        }
        lemma_retain_all_kept(h);
        assert(is_kept(t[t.len() - 1]));
        assert(h.filter(keep).push(t.last()) =~= t);
    }
}

proof fn lemma_collapse_without_doubles(t: Seq<char>)
    requires
        no_double_space(t),
    ensures
        collapse_spaces(t) == t,
    decreases t.len(),
{
    if t.len() > 0 {
        let h = t.drop_last();
        assert forall|i: int| 0 < i < h.len() implies !(h[i - 1] == ' ' && #[trigger] h[i]
            == ' ') by {
            assert(h[i] == t[i]);
            assert(h[i - 1] == t[i - 1]);
        }
        lemma_collapse_without_doubles(h);
        if t.len() >= 2 {
            assert(!(t[t.len() - 2] == ' ' && t[t.len() - 1] == ' '));
        }
        assert(h.push(t.last()) =~= t);
    }
}

/// Repairing a settled text gives the text back: on such texts repair can
/// be run again and again and nothing changes.
pub proof fn lemma_repair_leaves_settled(t: Seq<char>)
    requires
        is_settled(t),
    ensures
        repaired(t) == t,
{
    let n = t.len() as int;
    assert(!is_kept(line_break()));
    assert(!is_kept(long_dash()));
    assert(!is_kept(corner_quote()));
    assert forall|i: int| 0 <= i < n implies t[i] != line_break() && t[i] != long_dash() && t[i]
        != corner_quote() by {
        assert(is_kept(t[i]));
    }
    // No trailing line break.
    let tail = seq![line_break(), 'N'];
    lemma_no_match_without_char(t, tail, 0);
    assert(strip_trailing_break(t) == t);
    // No long dash.
    assert(normalize_dashes(t) =~= t);
    // No leading artifact.
    if n > 0 {
        assert(is_ascii_alnum(t[0]));
        if has_prefix(t, seq!['-', ' ']) {
            assert(t.subrange(0, 2)[0] == '-');
        }
        if has_prefix(t, seq!['-', '.']) {
            assert(t.subrange(0, 2)[0] == '-');
        }
    }
    assert(strip_leading_artifact(t) == t);
    // No misreading.
    assert(replace_first(t, seq!['I', 'R'], seq!['I', 'k']) == t);
    lemma_no_match_without_char(t, seq!['A', line_break()], 1);
    lemma_no_match_without_char(t, seq![corner_quote(), 'N', 'O'], 0);
    assert(fix_misreads(t) == t);
    // No line break.
    lemma_mend_without_breaks(t, n);
    assert(t.take(n) =~= t);
    assert(mend_line_breaks(t) == t);
    // Nothing to drop.
    lemma_retain_all_kept(t);
    // No trailing run.
    assert(fix_trailing_runs(t) == t);
    // Nothing to tidy.
    lemma_collapse_without_doubles(t);
    assert(drop_trailing_hyphen(t) == t);
    assert(trim_start_spaces(t) == t);
    assert(trim_end_spaces(t) == t);
    assert(tidy_spaces(t) == t);
}

/// One of the two runs that repair rewrites at the end of a text: `1ll` and
/// `lll`.
pub open spec fn is_stroke_run(run: Seq<char>) -> bool {
    run == seq!['1', 'l', 'l'] || run == seq!['l', 'l', 'l']
}

/// What repair writes in place of a run: `III` for `1ll`, `!!!` for `lll`.
pub open spec fn rewritten_run(run: Seq<char>) -> Seq<char> {
    if run == seq!['1', 'l', 'l'] {
        seq!['I', 'I', 'I']
    } else {
        seq!['!', '!', '!']
    }
}

/// A text ends with `tail` exactly where it is some head followed by `tail`.
proof fn lemma_suffix_split(s: Seq<char>, tail: Seq<char>)
    ensures
        has_suffix(s, tail) ==> s == s.take(s.len() - tail.len()) + tail,
        forall|head: Seq<char>| s == head + tail ==> has_suffix(s, tail),
{
    if has_suffix(s, tail) {
        assert(s =~= s.take(s.len() - tail.len()) + tail);
    }
    assert forall|head: Seq<char>| s == head + tail implies has_suffix(s, tail) by {
        assert(s.subrange(s.len() - tail.len(), s.len() as int) =~= tail);
    }
}

/// Where a text ends with a stroke run, its last three characters are those
/// of the run.
proof fn lemma_run_chars(s: Seq<char>, run: Seq<char>)
    requires
        is_stroke_run(run),
        has_suffix(s, run),
    ensures
        s.len() >= 3,
        s[s.len() - 3] == run[0],
        s[s.len() - 2] == 'l',
        s[s.len() - 1] == 'l',
        run[0] == '1' || run[0] == 'l',
        run.len() == 3,
{
    let n = s.len() as int;
    assert(s.subrange(n - 3, n)[0] == run[0]);
    assert(s.subrange(n - 3, n)[1] == run[1]);
    assert(s.subrange(n - 3, n)[2] == run[2]);
}

/// A text whose last three characters are those of a run ends with the run.
proof fn lemma_run_from_chars(s: Seq<char>, run: Seq<char>)
    requires
        is_stroke_run(run),
        s.len() >= 3,
        s[s.len() - 3] == run[0],
        s[s.len() - 2] == 'l',
        s[s.len() - 1] == 'l',
    ensures
        has_suffix(s, run),
{
    assert(s.subrange(s.len() - 3, s.len() as int) =~= run);
}

proof fn lemma_run_survives_start(s: Seq<char>, run: Seq<char>)
    requires
        is_stroke_run(run),
        has_suffix(s, run),
    ensures
        has_suffix(strip_leading_artifact(normalize_dashes(strip_trailing_break(s))), run),
{
    lemma_run_chars(s, run);
    let n = s.len() as int;
    if has_suffix(s, seq![line_break(), 'N']) {
        assert(s.subrange(n - 2, n)[1] == 'N');
    }
    assert(strip_trailing_break(s) == s);
    let b = normalize_dashes(s);
    assert(b.len() == n);
    lemma_run_from_chars(b, run);
    let a = if has_prefix(b, seq!['-', ' ']) || has_prefix(b, seq!['-', '.']) {
        b.skip(2)
    } else {
        b
    };
    if has_prefix(b, seq!['-', ' ']) {
        assert(b.subrange(0, 2)[1] == ' ');
        assert(n >= 5);
    }
    if has_prefix(b, seq!['-', '.']) {
        assert(b.subrange(0, 2)[1] == '.');
        assert(n >= 5);
    }
    assert(a.len() >= 3);
    assert(a[a.len() - 3] == b[n - 3]);
    assert(a[a.len() - 2] == b[n - 2]);
    assert(a[a.len() - 1] == b[n - 1]);
    let c = strip_leading_artifact(b);
    if !is_ascii_alnum(a[0]) {
        assert(a.len() >= 4);
        assert(c == a.skip(1));
        assert(c[c.len() - 3] == a[a.len() - 3]);
        assert(c[c.len() - 2] == a[a.len() - 2]);
        assert(c[c.len() - 1] == a[a.len() - 1]);
    }
    lemma_run_from_chars(c, run);
}

/// Replacing the first occurrence of a text that shares no character with
/// the run leaves the run at the end.
proof fn lemma_run_survives_replace(s: Seq<char>, run: Seq<char>, from: Seq<char>, to: Seq<char>)
    requires
        is_stroke_run(run),
        has_suffix(s, run),
        from.len() == 2,
        from[0] != '1' && from[0] != 'l',
        from[1] != '1' && from[1] != 'l',
    ensures
        has_suffix(replace_first(s, from, to), run),
{
    lemma_run_chars(s, run);
    let n = s.len() as int;
    match first_match(s, from) {
        Some(i) => {
            crate::text::lemma_first_match_from(s, from, 0);
            assert(s.subrange(i, i + 2)[0] == from[0]);
            assert(s.subrange(i, i + 2)[1] == from[1]);
            assert(i + 1 < n - 3);
            let out = replace_first(s, from, to);
            assert(out.len() == n - 2 + to.len());
            let m = out.len() as int;
            assert(out[m - 3] == s[n - 3]);
            assert(out[m - 2] == s[n - 2]);
            assert(out[m - 1] == s[n - 1]);
            lemma_run_from_chars(out, run);
        },
        None => {},
    }
}

proof fn lemma_run_survives_misreads(s: Seq<char>, run: Seq<char>)
    requires
        is_stroke_run(run),
        has_suffix(s, run),
    ensures
        has_suffix(fix_misreads(s), run),
{
    let a = replace_first(s, seq!['I', 'R'], seq!['I', 'k']);
    lemma_run_survives_replace(s, run, seq!['I', 'R'], seq!['I', 'k']);
    let b = replace_first(a, seq!['A', line_break()], Seq::empty());
    lemma_run_survives_replace(a, run, seq!['A', line_break()], Seq::empty());
    lemma_run_chars(b, run);
    if has_suffix(b, seq![corner_quote(), 'N', 'O']) {
        assert(b.subrange(b.len() - 3, b.len() as int)[2] == 'O');
    }
}

proof fn lemma_run_survives_mending(s: Seq<char>, run: Seq<char>)
    requires
        is_stroke_run(run),
        has_suffix(s, run),
    ensures
        has_suffix(mend_line_breaks(s), run),
{
    lemma_run_chars(s, run);
    let n = s.len() as int;
    assert(mended_piece(s, n - 3) == seq![s[n - 3]]);
    assert(mended_piece(s, n - 2) == seq![s[n - 2]]);
    assert(mended_piece(s, n - 1) == seq![s[n - 1]]);
    assert(mended_upto(s, n) == mended_upto(s, n - 1) + mended_piece(s, n - 1));
    assert(mended_upto(s, n - 1) == mended_upto(s, n - 2) + mended_piece(s, n - 2));
    assert(mended_upto(s, n - 2) == mended_upto(s, n - 3) + mended_piece(s, n - 3));
    let out = mend_line_breaks(s);
    assert(out =~= mended_upto(s, n - 3) + run);
    lemma_suffix_split(out, run);
}

proof fn lemma_run_survives_retaining(s: Seq<char>, run: Seq<char>)
    requires
        is_stroke_run(run),
        has_suffix(s, run),
    ensures
        has_suffix(retain_kept(s), run),
{
    lemma_suffix_split(s, run);
    let head = s.take(s.len() - run.len());
    let keep = |c: char| is_kept(c);
    Seq::filter_distributes_over_add(head, run, keep);
    assert(all_kept(run));
    lemma_retain_all_kept(run);
    let out = retain_kept(s);
    assert(out == head.filter(keep) + run);
    lemma_suffix_split(out, run);
}

/// Rewriting the trailing runs of a text that ends in a stroke run puts the
/// rewritten run in the place of the run and changes nothing else.
pub proof fn lemma_run_is_rewritten(s: Seq<char>, run: Seq<char>)
    requires
        is_stroke_run(run),
        has_suffix(s, run),
    ensures
        has_suffix(fix_trailing_runs(s), rewritten_run(run)),
        fix_trailing_runs(s) == s.take(s.len() - 3) + rewritten_run(run),
{
    lemma_run_chars(s, run);
    let n = s.len() as int;
    let head = s.take(n - 3);
    if has_suffix(s, seq!['m', 'n']) {
        assert(s.subrange(n - 2, n)[1] == 'n');
    }
    let a = replace_suffix(s, seq!['m', 'n'], seq!['I', 'I', 'I']);
    assert(a == s);
    let b = replace_suffix(a, seq!['1', 'l', 'l'], seq!['I', 'I', 'I']);
    if run == seq!['1', 'l', 'l'] {
        assert(b == head + seq!['I', 'I', 'I']);
    } else {
        if has_suffix(a, seq!['1', 'l', 'l']) {
            assert(a.subrange(n - 3, n)[0] == '1');
        }
        assert(b == s);
    }
    let c = replace_suffix(b, seq!['l', 'l', 'l'], seq!['!', '!', '!']);
    if run == seq!['1', 'l', 'l'] {
        if has_suffix(b, seq!['l', 'l', 'l']) {
            assert(b.subrange(n - 3, n)[2] == 'l');
            assert(b[n - 1] == 'I');
        }
        assert(c == b);
    } else {
        assert(c == head + seq!['!', '!', '!']);
    }
    assert(c == head + rewritten_run(run));
    let m = c.len() as int;
    if has_suffix(c, seq!['I', 'l']) {
        assert(c.subrange(m - 2, m)[1] == 'l');
        assert(c[m - 1] == rewritten_run(run)[2]);
    }
    assert(fix_trailing_runs(s) == c);
    lemma_suffix_split(c, rewritten_run(run));
}

/// Collapsing spaces leaves a last character that is no space where it is.
proof fn lemma_collapse_keeps_tail(s: Seq<char>, tail: Seq<char>)
    requires
        tail.len() == 3,
        tail[0] != ' ' && tail[1] != ' ' && tail[2] != ' ',
        has_suffix(s, tail),
    ensures
        has_suffix(collapse_spaces(s), tail),
{
    let n = s.len() as int;
    assert(s.subrange(n - 3, n)[0] == tail[0]);
    assert(s.subrange(n - 3, n)[1] == tail[1]);
    assert(s.subrange(n - 3, n)[2] == tail[2]);
    let s1 = s.drop_last();
    let s2 = s1.drop_last();
    let s3 = s2.drop_last();
    assert(s1.last() == s[n - 2]);
    assert(s2.last() == s[n - 3]);
    assert(collapse_spaces(s) == collapse_spaces(s1).push(s[n - 1]));
    assert(collapse_spaces(s1) == collapse_spaces(s2).push(s[n - 2]));
    assert(collapse_spaces(s2) == collapse_spaces(s3).push(s[n - 3]));
    let out = collapse_spaces(s);
    assert(out =~= collapse_spaces(s3) + tail);
    lemma_suffix_split(out, tail);
}

/// Trimming spaces at the start leaves a tail without spaces where it is.
proof fn lemma_trim_start_keeps_tail(s: Seq<char>, tail: Seq<char>)
    requires
        tail.len() == 3,
        tail[0] != ' ' && tail[1] != ' ' && tail[2] != ' ',
        has_suffix(s, tail),
    ensures
        has_suffix(trim_start_spaces(s), tail),
    decreases s.len(),
{
    let n = s.len() as int;
    assert(s.subrange(n - 3, n)[0] == tail[0]);
    if s.len() > 0 && s[0] == ' ' {
        assert(n >= 4);
        let r = s.skip(1);
        assert(r.subrange(r.len() - 3, r.len() as int) =~= s.subrange(n - 3, n));
        lemma_trim_start_keeps_tail(r, tail);
    }
}

proof fn lemma_tidy_keeps_tail(s: Seq<char>, tail: Seq<char>)
    requires
        tail == seq!['I', 'I', 'I'] || tail == seq!['!', '!', '!'],
        has_suffix(s, tail),
    ensures
        has_suffix(tidy_spaces(s), tail),
{
    lemma_collapse_keeps_tail(s, tail);
    let a = collapse_spaces(s);
    let n = a.len() as int;
    assert(a.subrange(n - 3, n)[2] == tail[2]);
    assert(drop_trailing_hyphen(a) == a);
    lemma_trim_start_keeps_tail(a, tail);
    let c = trim_start_spaces(a);
    let m = c.len() as int;
    assert(c.subrange(m - 3, m)[2] == tail[2]);
    assert(trim_end_spaces(c) == c);
}

/// A text that ends in `1ll` is repaired to one that ends in `III`, and a
/// text that ends in `lll` to one that ends in `!!!`.
pub proof fn lemma_trailing_run_is_rewritten(s: Seq<char>, run: Seq<char>)
    requires
        is_stroke_run(run),
        has_suffix(s, run),
    ensures
        has_suffix(repaired(s), rewritten_run(run)),
{
    lemma_run_survives_start(s, run);
    let c = strip_leading_artifact(normalize_dashes(strip_trailing_break(s)));
    lemma_run_survives_misreads(c, run);
    let d = fix_misreads(c);
    lemma_run_survives_mending(d, run);
    let e = mend_line_breaks(d);
    lemma_run_survives_retaining(e, run);
    let f = retain_kept(e);
    lemma_run_is_rewritten(f, run);
    lemma_tidy_keeps_tail(fix_trailing_runs(f), rewritten_run(run));
}

/// Stripping the leading artifact cuts at most three characters off the
/// start; it cuts none exactly where the text is empty or begins with an
/// ASCII letter or digit.
proof fn lemma_strip_leading_cuts(t: Seq<char>)
    ensures
        exists|k: int| 0 <= k <= 3 && k <= t.len() && strip_leading_artifact(t) == t.skip(k),
        strip_leading_artifact(t).len() == t.len() ==> t.len() == 0 || is_ascii_alnum(t[0]),
{
    let a = if has_prefix(t, seq!['-', ' ']) || has_prefix(t, seq!['-', '.']) {
        t.skip(2)
    } else {
        t
    };
    let c = strip_leading_artifact(t);
    if a.len() > 0 && !is_ascii_alnum(a[0]) {
        if a == t {
            assert(c == t.skip(1));
        } else {
            assert(a.skip(1) =~= t.skip(3));
            assert(c == t.skip(3));
        }
    } else {
        if a == t {
            assert(t.skip(0) =~= t);
            assert(c == t.skip(0));
        } else {
            assert(c == t.skip(2));
        }
    }
}

/// `c` with its first `IR` read as `Ik`.
pub open spec fn reread(c: Seq<char>) -> Seq<char> {
    replace_first(c, seq!['I', 'R'], seq!['I', 'k'])
}

/// Reading `IR` as `Ik` keeps the length and changes at most one character,
/// an `R` into a `k`; it changes nothing exactly where `IR` does not occur.
proof fn lemma_reread(c: Seq<char>)
    ensures
        reread(c).len() == c.len(),
        forall|j: int|
            0 <= j < c.len() ==> (#[trigger] reread(c)[j]) == c[j] || (reread(c)[j] == 'k' && c[j]
                == 'R'),
        reread(c) == c ==> !contains_text(c, seq!['I', 'R']),
{
    let from = seq!['I', 'R'];
    let to = seq!['I', 'k'];
    let d = reread(c);
    match first_match(c, from) {
        Some(i) => {
            crate::text::lemma_first_match_from(c, from, 0);
            assert(c.subrange(i, i + 2)[0] == 'I');
            assert(c.subrange(i, i + 2)[1] == 'R');
            assert(d.len() == c.len());
            assert forall|j: int| 0 <= j < c.len() implies d[j] == c[j] || (d[j] == 'k' && c[j]
                == 'R') by {
                if j < i {
                    assert(d[j] == c[j]);
                } else if j == i {
                    assert(d[j] == 'I');
                } else if j == i + 1 {
                    assert(d[j] == 'k');
                } else {
                    assert(d[j] == c[j]);
                }
            }
            assert(d[i + 1] == 'k');
            assert(d != c);
        },
        None => {},
    }
}

/// On a text of kept characters only, the steps from the misreadings to the
/// dropping of characters do no more than read the first `IR` as `Ik`.
proof fn lemma_middle_steps(c: Seq<char>)
    requires
        all_kept(c),
    ensures
        retain_kept(mend_line_breaks(fix_misreads(c))) == reread(c),
        all_kept(reread(c)),
{
    let a = reread(c);
    lemma_reread(c);
    assert(!is_kept(line_break()));
    assert(!is_kept(corner_quote()));
    assert forall|j: int| 0 <= j < a.len() implies is_kept(#[trigger] a[j]) by {
        assert(is_kept(c[j]));
        assert(a[j] == c[j] || (a[j] == 'k' && c[j] == 'R'));
    }
    assert forall|j: int| 0 <= j < a.len() implies a[j] != line_break() && a[j]
        != corner_quote() by {
        assert(is_kept(a[j]));
    }
    lemma_no_match_without_char(a, seq!['A', line_break()], 1);
    lemma_no_match_without_char(a, seq![corner_quote(), 'N', 'O'], 0);
    assert(fix_misreads(c) == a);
    lemma_mend_without_breaks(a, a.len() as int);
    assert(a.take(a.len() as int) =~= a);
    lemma_retain_all_kept(a);
}

/// Rewriting the trailing runs either changes nothing, where the text ends
/// in none of them, or leaves a text that is as long or one longer and ends
/// in `I` or `!` where it ended in `n` or `l`.
proof fn lemma_trailing_runs_change(f: Seq<char>)
    ensures
        ({
            let g = fix_trailing_runs(f);
            ||| (g == f && !has_suffix(f, seq!['m', 'n']) && !has_suffix(f, seq!['1', 'l', 'l'])
                && !has_suffix(f, seq!['l', 'l', 'l']) && !has_suffix(f, seq!['I', 'l']))
            ||| (f.len() > 0 && f.len() <= g.len() <= f.len() + 1 && (g.last() == 'I' || g.last()
                == '!') && (f.last() == 'n' || f.last() == 'l'))
        }),
{
    let n = f.len() as int;
    let a = replace_suffix(f, seq!['m', 'n'], seq!['I', 'I', 'I']);
    let b = replace_suffix(a, seq!['1', 'l', 'l'], seq!['I', 'I', 'I']);
    let c = replace_suffix(b, seq!['l', 'l', 'l'], seq!['!', '!', '!']);
    let g = replace_suffix(c, seq!['I', 'l'], seq!['I', 'I']);
    if has_suffix(f, seq!['m', 'n']) {
        assert(f.subrange(n - 2, n)[1] == 'n');
        assert(a.last() == 'I');
        let m = a.len() as int;
        if has_suffix(a, seq!['1', 'l', 'l']) {
            assert(a.subrange(m - 3, m)[2] == 'l');
        }
        if has_suffix(b, seq!['l', 'l', 'l']) {
            assert(b.subrange(m - 3, m)[2] == 'l');
        }
        if has_suffix(c, seq!['I', 'l']) {
            assert(c.subrange(m - 2, m)[1] == 'l');
        }
        assert(g == a);
    } else if has_suffix(a, seq!['1', 'l', 'l']) {
        assert(a == f);
        assert(f.subrange(n - 3, n)[2] == 'l');
        assert(b.last() == 'I');
        assert(b.len() == n);
        if has_suffix(b, seq!['l', 'l', 'l']) {
            assert(b.subrange(n - 3, n)[2] == 'l');
        }
        if has_suffix(c, seq!['I', 'l']) {
            assert(c.subrange(n - 2, n)[1] == 'l');
        }
        assert(g == b);
    } else if has_suffix(b, seq!['l', 'l', 'l']) {
        assert(b == f);
        assert(f.subrange(n - 3, n)[2] == 'l');
        assert(c.last() == '!');
        assert(c.len() == n);
        if has_suffix(c, seq!['I', 'l']) {
            assert(c.subrange(n - 2, n)[1] == 'l');
        }
        assert(g == c);
    } else if has_suffix(c, seq!['I', 'l']) {
        assert(c == f);
        assert(f.subrange(n - 2, n)[1] == 'l');
        assert(g.last() == 'I');
        assert(g.len() == n);
    } else {
        assert(g == f);
    }
}

/// Collapsing spaces never lengthens a text, and leaves alone what it does
/// not shorten.
proof fn lemma_collapse_shortens(s: Seq<char>)
    ensures
        collapse_spaces(s).len() <= s.len(),
        collapse_spaces(s).len() == s.len() ==> collapse_spaces(s) == s,
    decreases s.len(),
{
    if s.len() > 0 {
        lemma_collapse_shortens(s.drop_last());
        if !(s.last() == ' ' && s.len() >= 2 && s[s.len() - 2] == ' ') {
            if collapse_spaces(s).len() == s.len() {
                assert(s.drop_last().push(s.last()) =~= s);
            }
        }
    }
}

/// Trimming the start of a text that does not end in a space leaves the end
/// where it is.
proof fn lemma_trim_start_keeps_last(s: Seq<char>)
    requires
        s.len() > 0,
        s.last() != ' ',
    ensures
        trim_start_spaces(s).len() > 0,
        trim_start_spaces(s).last() == s.last(),
    decreases s.len(),
{
    if s[0] == ' ' {
        let r = s.skip(1);
        assert(r.len() > 0);
        assert(r.last() == s.last());
        lemma_trim_start_keeps_last(r);
    }
}

/// Tidying never lengthens a text. What it does not shorten it leaves
/// alone, and that does not end in a hyphen. A last character that is
/// neither hyphen nor space stays last.
proof fn lemma_tidy_shortens(g: Seq<char>)
    ensures
        tidy_spaces(g).len() <= g.len(),
        tidy_spaces(g).len() == g.len() ==> tidy_spaces(g) == g && (g.len() > 0 ==> g.last()
            != '-'),
        g.len() > 0 && g.last() != '-' && g.last() != ' ' ==> tidy_spaces(g).len() > 0
            && tidy_spaces(g).last() == g.last(),
{
    lemma_collapse_shortens(g);
    lemma_collapse_spaces(g);
    let a = collapse_spaces(g);
    let b = drop_trailing_hyphen(a);
    lemma_trim_start_spaces(b);
    let c = trim_start_spaces(b);
    let k = choose|k: int| 0 <= k <= b.len() && c == b.skip(k);
    lemma_trim_end_spaces(c);
    let d = trim_end_spaces(c);
    let m = choose|m: int| 0 <= m <= c.len() && d == c.take(m);
    if d.len() == g.len() {
        assert(a == g);
        assert(b == a);
        assert(k == 0);
        assert(b.skip(0) =~= b);
        assert(c.take(c.len() as int) =~= c);
    }
    if g.len() > 0 && g.last() != '-' && g.last() != ' ' {
        assert(a.last() == g.last());
        assert(b == a);
        lemma_trim_start_keeps_last(b);
        assert(d == c);
    }
}

/// Only settled texts are left alone: a text that repair gives back
/// unchanged is settled. With `lemma_repair_leaves_settled` this says that
/// the settled texts are exactly the texts that repair does not change.
pub proof fn lemma_unchanged_is_settled(t: Seq<char>)
    requires
        repaired(t) == t,
    ensures
        is_settled(t),
{
    lemma_repaired_is_repaired_text(t);
    let n = t.len() as int;
    assert(!is_kept(line_break()));
    assert(!is_kept(long_dash()));
    assert forall|i: int| 0 <= i < n implies t[i] != line_break() && t[i] != long_dash() by {
        assert(is_kept(t[i]));
    }
    lemma_no_match_without_char(t, seq![line_break(), 'N'], 0);
    assert(strip_trailing_break(t) == t);
    assert(normalize_dashes(t) =~= t);
    let c = strip_leading_artifact(t);
    lemma_strip_leading_cuts(t);
    let k = choose|k: int| 0 <= k <= 3 && k <= t.len() && c == t.skip(k);
    assert(t.skip(k) =~= t.subrange(k, n));
    lemma_piece_keeps(t, k, n);
    lemma_middle_steps(c);
    let f = reread(c);
    lemma_reread(c);
    lemma_trailing_runs_change(f);
    let g = fix_trailing_runs(f);
    lemma_tidy_shortens(g);
    assert(repaired(t) == tidy_spaces(g));
    // Where a trailing run is rewritten, the repaired text ends in `I` or
    // `!`, but the text itself in `n` or `l`.
    if g != f {
        assert(c.len() > 0);
        assert(f.last() == c.last() || (f.last() == 'k' && c.last() == 'R'));
        assert(c.last() == t.last());
        assert(tidy_spaces(g).last() == g.last());
        assert(false);
    }
    assert(k == 0);
    assert(t.skip(0) =~= t);
    assert(c == t);
    assert(tidy_spaces(g) == g);
    assert(f == t);
}

} // verus!
