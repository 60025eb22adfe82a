//! Repair of recognized text: an ordered chain of transforms, each of which
//! undoes one systematic misreading.

use vstd::prelude::*;
use crate::text::{
    append_chars, ascii_alnum, chars_of, ends_with, has_prefix, has_suffix, is_ascii_alnum,
    replace_first, replace_first_in, slice_of, starts_with, string_of,
};

verus! {

/// The line break.
pub open spec fn line_break() -> char {
    '\n'
}

/// The dash that recognition reads in place of a hyphen.
pub open spec fn long_dash() -> char {
    '\u{2014}'
}

/// The curved quotation mark that opens the corner marker.
pub open spec fn corner_quote() -> char {
    '\u{201c}'
}

/// The characters that survive besides ASCII letters and digits.
pub open spec fn is_allowed_mark(c: char) -> bool {
    c == ' ' || c == '-' || c == '.' || c == '!' || c == ':' || c == '(' || c == ')' || c == '\''
        || c == '/' || c == '@' || c == '&' || c == '_'
}

/// The characters a repaired text is made of.
pub open spec fn is_kept(c: char) -> bool {
    is_ascii_alnum(c) || is_allowed_mark(c)
}

/// Without one trailing line break, and then without a trailing line break
/// followed by `N`.
pub open spec fn strip_trailing_break(s: Seq<char>) -> Seq<char> {
    let a = if s.len() > 0 && s.last() == line_break() {
        s.drop_last()
    } else {
        s
    };
    if has_suffix(a, seq![line_break(), 'N']) {
        a.take(a.len() - 2)
    } else {
        a
    }
}

/// With every long dash turned into a hyphen.
pub open spec fn normalize_dashes(s: Seq<char>) -> Seq<char> {
    s.map_values(
        |c: char|
            if c == long_dash() {
                '-'
            } else {
                c
            },
    )
}

/// Without a leading `- ` or `-.`, and then without a first character that
/// is no ASCII letter or digit.
pub open spec fn strip_leading_artifact(s: Seq<char>) -> Seq<char> {
    let a = if has_prefix(s, seq!['-', ' ']) || has_prefix(s, seq!['-', '.']) {
        s.skip(2)
    } else {
        s
    };
    if a.len() > 0 && !is_ascii_alnum(a[0]) {
        a.skip(1)
    } else {
        a
    }
}

/// With the first `IR` read as `Ik`, without the first `A` before a line
/// break, and without the corner marker at the end.
pub open spec fn fix_misreads(s: Seq<char>) -> Seq<char> {
    let a = replace_first(s, seq!['I', 'R'], seq!['I', 'k']);
    let b = replace_first(a, seq!['A', line_break()], Seq::empty());
    if has_suffix(b, seq![corner_quote(), 'N', 'O']) {
        b.take(b.len() - 3)
    } else {
        b
    }
}

/// What the character at `i` becomes when the line breaks are mended: a line
/// break becomes a space; a hyphen before a line break goes; `ol` before a
/// line break becomes `yo!`; a period after a line break goes.
pub open spec fn mended_piece(s: Seq<char>, i: int) -> Seq<char> {
    let c = s[i];
    let before_break = i + 1 < s.len() && s[i + 1] == line_break();
    if c == line_break() {
        seq![' ']
    } else if before_break && c == '-' {
        Seq::empty()
    } else if before_break && c == 'l' && i >= 1 && s[i - 1] == 'o' {
        Seq::empty()
    } else if c == 'o' && i + 2 < s.len() && s[i + 1] == 'l' && s[i + 2] == line_break() {
        seq!['y', 'o', '!']
    } else if c == '.' && i >= 1 && s[i - 1] == line_break() {
        Seq::empty()
    } else {
        seq![c]
    }
}

/// The first `upto` characters of `s` with the line breaks mended.
pub open spec fn mended_upto(s: Seq<char>, upto: int) -> Seq<char>
    decreases upto,
{
    if upto <= 0 {
        Seq::empty()
    } else {
        mended_upto(s, upto - 1) + mended_piece(s, upto - 1)
    }
}

/// `s` with its line breaks mended.
pub open spec fn mend_line_breaks(s: Seq<char>) -> Seq<char> {
    mended_upto(s, s.len() as int)
}

/// Only the characters a repaired text is made of.
pub open spec fn retain_kept(s: Seq<char>) -> Seq<char> {
    s.filter(|c: char| is_kept(c))
}

/// `s` with its suffix `from` replaced by `to`; `s` itself where it does not
/// end so.
pub open spec fn replace_suffix(s: Seq<char>, from: Seq<char>, to: Seq<char>) -> Seq<char> {
    if has_suffix(s, from) {
        s.take(s.len() - from.len()) + to
    } else {
        s
    }
}

/// A trailing `mn` becomes `III`, then a trailing `1ll` becomes `III`, then
/// a trailing `lll` becomes `!!!`, then a trailing `Il` becomes `II`.
pub open spec fn fix_trailing_runs(s: Seq<char>) -> Seq<char> {
    let a = replace_suffix(s, seq!['m', 'n'], seq!['I', 'I', 'I']);
    let b = replace_suffix(a, seq!['1', 'l', 'l'], seq!['I', 'I', 'I']);
    let c = replace_suffix(b, seq!['l', 'l', 'l'], seq!['!', '!', '!']);
    replace_suffix(c, seq!['I', 'l'], seq!['I', 'I'])
}

/// Without the spaces that follow a space.
pub open spec fn collapse_spaces(s: Seq<char>) -> Seq<char>
    decreases s.len(),
{
    if s.len() == 0 {
        s
    } else {
        let before = collapse_spaces(s.drop_last());
        if s.last() == ' ' && s.len() >= 2 && s[s.len() - 2] == ' ' {
            before
        } else {
            before.push(s.last())
        }
    }
}

/// Without one trailing hyphen.
pub open spec fn drop_trailing_hyphen(s: Seq<char>) -> Seq<char> {
    if s.len() > 0 && s.last() == '-' {
        s.drop_last()
    } else {
        s
    }
}

/// Without the spaces at the start.
pub open spec fn trim_start_spaces(s: Seq<char>) -> Seq<char>
    decreases s.len(),
{
    if s.len() > 0 && s[0] == ' ' {
        trim_start_spaces(s.skip(1))
    } else {
        s
    }
}

/// Without the spaces at the end.
pub open spec fn trim_end_spaces(s: Seq<char>) -> Seq<char>
    decreases s.len(),
{
    if s.len() > 0 && s.last() == ' ' {
        trim_end_spaces(s.drop_last())
    } else {
        s
    }
}

/// Runs of spaces collapsed, one trailing hyphen dropped, and the spaces at
/// both ends trimmed.
pub open spec fn tidy_spaces(s: Seq<char>) -> Seq<char> {
    trim_end_spaces(trim_start_spaces(drop_trailing_hyphen(collapse_spaces(s))))
}

/// The whole chain, in order.
pub open spec fn repaired(s: Seq<char>) -> Seq<char> {
    tidy_spaces(
        fix_trailing_runs(
            retain_kept(
                mend_line_breaks(
                    fix_misreads(strip_leading_artifact(normalize_dashes(strip_trailing_break(s)))),
                ),
            ),
        ),
    )
}

/// What every repaired text looks like: made of kept characters only, no
/// space after a space, and no space at either end.
pub open spec fn is_repaired_text(t: Seq<char>) -> bool {
    &&& forall|i: int| 0 <= i < t.len() ==> is_kept(#[trigger] t[i])
    &&& forall|i: int| 0 < i < t.len() ==> !(t[i - 1] == ' ' && #[trigger] t[i] == ' ')
    &&& t.len() > 0 ==> t[0] != ' ' && t.last() != ' '
}

/// Tells whether a repaired text may hold `c`.
pub fn is_kept_char(c: char) -> (b: bool)
    ensures
        b == is_kept(c),
{
    ascii_alnum(c) || c == ' ' || c == '-' || c == '.' || c == '!' || c == ':' || c == '(' || c
        == ')' || c == '\'' || c == '/' || c == '@' || c == '&' || c == '_'
}

/// First step: strips one trailing line break, and then a trailing line
/// break followed by `N`.
pub fn strip_trailing_break_in(s: Vec<char>) -> (out: Vec<char>)
    ensures
        out@ == strip_trailing_break(s@),
{
    let mut s = s;
    let n = s.len();
    if n > 0 && s[n - 1] == '\n' {
        s.pop();
    }
    let tail: Vec<char> = vec!['\n', 'N'];
    if ends_with(&s, &tail) {
        let m = s.len();
        s.truncate(m - 2);
        return s;
    }
    s
}

/// Second step: turns every long dash into a hyphen.
pub fn normalize_dashes_in(s: Vec<char>) -> (out: Vec<char>)
    ensures
        out@ == normalize_dashes(s@),
{
    let mut out: Vec<char> = Vec::new();
    let mut i: usize = 0;
    while i < s.len()
        invariant
            i <= s.len(),
            out@ == normalize_dashes(s@.take(i as int)),
        decreases s.len() - i,
    {
        let c = s[i];
        if c == '\u{2014}' {
            out.push('-');
        } else {
            out.push(c);
        }
        i += 1;
        assert(out@ =~= normalize_dashes(s@.take(i as int)));
    }
    assert(s@.take(s.len() as int) =~= s@);
    out
}

/// Third step: strips a leading `- ` or `-.`, and then a first character
/// that is no ASCII letter or digit.
pub fn strip_leading_artifact_in(s: Vec<char>) -> (out: Vec<char>)
    ensures
        out@ == strip_leading_artifact(s@),
{
    let dash_space: Vec<char> = vec!['-', ' '];
    let dash_dot: Vec<char> = vec!['-', '.'];
    let mut from: usize = 0;
    if starts_with(&s, &dash_space) || starts_with(&s, &dash_dot) {
        from = 2;
    }
    if from < s.len() && !ascii_alnum(s[from]) {
        from = from + 1;
    }
    let out = slice_of(&s, from, s.len());
    proof {
        let a = if has_prefix(s@, seq!['-', ' ']) || has_prefix(s@, seq!['-', '.']) {
            s@.skip(2)
        } else {
            s@
        };
        assert(out@ =~= strip_leading_artifact(s@));
    }
    out
}

/// Fourth step: undoes the known misreadings.
pub fn fix_misreads_in(s: Vec<char>) -> (out: Vec<char>)
    ensures
        out@ == fix_misreads(s@),
{
    let mut s = s;
    let read: Vec<char> = vec!['I', 'R'];
    let meant: Vec<char> = vec!['I', 'k'];
    let corner: Vec<char> = vec!['A', '\n'];
    let nothing: Vec<char> = Vec::new();
    let marker: Vec<char> = vec!['\u{201c}', 'N', 'O'];
    replace_first_in(&mut s, &read, &meant);
    replace_first_in(&mut s, &corner, &nothing);
    if ends_with(&s, &marker) {
        let m = s.len();
        s.truncate(m - 3);
    }
    s
}

/// Fifth step: mends the line breaks.
pub fn mend_line_breaks_in(s: Vec<char>) -> (out: Vec<char>)
    ensures
        out@ == mend_line_breaks(s@),
{
    let n = s.len();
    let mut out: Vec<char> = Vec::new();
    let mut i: usize = 0;
    while i < n
        invariant
            i <= n,
            n == s.len(),
            out@ == mended_upto(s@, i as int),
        decreases n - i,
    {
        let c = s[i];
        let before_break = i + 1 < n && s[i + 1] == '\n';
        if c == '\n' {
            out.push(' ');
        } else if before_break && c == '-' {
        } else if before_break && c == 'l' && i >= 1 && s[i - 1] == 'o' {
        } else if c == 'o' && n - i > 2 && s[i + 1] == 'l' && s[i + 2] == '\n' {
            out.push('y');
            out.push('o');
            out.push('!');
        } else if c == '.' && i >= 1 && s[i - 1] == '\n' {
        } else {
            out.push(c);
        }
        i += 1;
        assert(out@ =~= mended_upto(s@, i as int));
    }
    out
}

/// Sixth step: drops every character that a repaired text may not hold.
pub fn retain_kept_in(s: Vec<char>) -> (out: Vec<char>)
    ensures
        out@ == retain_kept(s@),
{
    let mut out: Vec<char> = Vec::new();
    let mut i: usize = 0;
    let ghost keep = |c: char| is_kept(c);
    assert(s@.take(0) =~= Seq::<char>::empty());
    while i < s.len()
        invariant
            i <= s.len(),
            keep == |c: char| is_kept(c),
            out@ == s@.take(i as int).filter(keep),
        decreases s.len() - i,
    {
        let c = s[i];
        proof {
            let now = s@.take(i + 1);
            assert(now.drop_last() =~= s@.take(i as int));
            assert(now.last() == c);
            reveal(Seq::filter);
        }
        if is_kept_char(c) {
            out.push(c);
        }
        i += 1;
    }
    assert(s@.take(s.len() as int) =~= s@);
    out
}

fn replace_suffix_in(s: &mut Vec<char>, from: &Vec<char>, to: &Vec<char>)
    ensures
        final(s)@ == replace_suffix(old(s)@, from@, to@),
{
    if ends_with(s, from) {
        let m = s.len();
        s.truncate(m - from.len());
        assert(s@ =~= old(s)@.take(old(s)@.len() - from@.len()));
        append_chars(s, to);
    }
}

/// Seventh step: rewrites the trailing runs.
pub fn fix_trailing_runs_in(s: Vec<char>) -> (out: Vec<char>)
    ensures
        out@ == fix_trailing_runs(s@),
{
    let mut s = s;
    let mn: Vec<char> = vec!['m', 'n'];
    let one_ll: Vec<char> = vec!['1', 'l', 'l'];
    let lll: Vec<char> = vec!['l', 'l', 'l'];
    let il: Vec<char> = vec!['I', 'l'];
    let three: Vec<char> = vec!['I', 'I', 'I'];
    let bangs: Vec<char> = vec!['!', '!', '!'];
    let two: Vec<char> = vec!['I', 'I'];
    replace_suffix_in(&mut s, &mn, &three);
    replace_suffix_in(&mut s, &one_ll, &three);
    replace_suffix_in(&mut s, &lll, &bangs);
    replace_suffix_in(&mut s, &il, &two);
    s
}

/// Eighth step: collapses runs of spaces, drops one trailing hyphen, and
/// trims the spaces at both ends.
pub fn tidy_spaces_in(s: Vec<char>) -> (out: Vec<char>)
    ensures
        out@ == tidy_spaces(s@),
{
    let mut packed: Vec<char> = Vec::new();
    let mut i: usize = 0;
    assert(s@.take(0) =~= Seq::<char>::empty());
    while i < s.len()
        invariant
            i <= s.len(),
            packed@ == collapse_spaces(s@.take(i as int)),
        decreases s.len() - i,
    {
        let c = s[i];
        proof {
            let now = s@.take(i + 1);
            assert(now.drop_last() =~= s@.take(i as int));
            assert(now.last() == c);
            if i >= 1 {
                assert(now[now.len() - 2] == s@[i - 1]);
            }
        }
        if !(c == ' ' && i >= 1 && s[i - 1] == ' ') {
            packed.push(c);
        }
        i += 1;
    }
    assert(s@.take(s.len() as int) =~= s@);
    let n = packed.len();
    if n > 0 && packed[n - 1] == '-' {
        packed.pop();
    }
    let ghost body = packed@;
    let mut from: usize = 0;
    assert(body.skip(0) =~= body);
    while from < packed.len() && packed[from] == ' '
        invariant
            from <= packed.len(),
            packed@ == body,
            trim_start_spaces(body) == trim_start_spaces(body.skip(from as int)),
        decreases packed.len() - from,
    {
        assert(body.skip(from as int).skip(1) =~= body.skip(from + 1));
        from += 1;
    }
    let mut to: usize = packed.len();
    let ghost front = body.skip(from as int);
    assert(front.take(front.len() as int) =~= front);
    while to > from && packed[to - 1] == ' '
        invariant
            from <= to <= packed.len(),
            packed@ == body,
            front == body.skip(from as int),
            trim_start_spaces(body) == front,
            trim_end_spaces(front) == trim_end_spaces(front.take(to - from)),
        decreases to - from,
    {
        assert(front.take(to - from).drop_last() =~= front.take(to - from - 1));
        to -= 1;
    }
    let out = slice_of(&packed, from, to);
    assert(out@ =~= front.take(to - from));
    out
}

/// Repairs a recognized text, step by step.
pub fn repair(s: Vec<char>) -> (out: Vec<char>)
    ensures
        out@ == repaired(s@),
        is_repaired_text(out@),
{
    proof {
        crate::stable::lemma_repaired_is_repaired_text(s@);
    }
    let a = strip_trailing_break_in(s);
    let b = normalize_dashes_in(a);
    let c = strip_leading_artifact_in(b);
    let d = fix_misreads_in(c);
    let e = mend_line_breaks_in(d);
    let f = retain_kept_in(e);
    let g = fix_trailing_runs_in(f);
    tidy_spaces_in(g)
}

/// Repairs the text that recognition returned for one field of a card.
pub fn fix_tesseract_string(text: &mut String)
    ensures
        final(text)@ == repaired(old(text)@),
        is_repaired_text(final(text)@),
{
    let out = repair(chars_of(text.as_str()));
    *text = string_of(&out);
}

} // verus!
