//! Text as sequences of characters: conversion to and from `String`, the
//! character classes the library distinguishes, and searching, cutting and
//! splitting.

use vstd::prelude::*;

verus! {

/// A character with the Unicode property `White_Space`. These are the
/// characters that `char::is_whitespace` answers for.
pub open spec fn char_is_whitespace(c: char) -> bool {
    ('\u{9}' <= c && c <= '\u{d}') || c == ' ' || c == '\u{85}' || c == '\u{a0}' || c
        == '\u{1680}' || ('\u{2000}' <= c && c <= '\u{200a}') || c == '\u{2028}' || c
        == '\u{2029}' || c == '\u{202f}' || c == '\u{205f}' || c == '\u{3000}'
}

/// What `char::is_numeric` answers for `c`: whether `c` belongs to one of the
/// Unicode general categories for numbers.
pub uninterp spec fn std_is_numeric(c: char) -> bool;

/// A numeric character. Among the ASCII characters these are the ten digits;
/// beyond ASCII it is what `char::is_numeric` answers.
pub open spec fn char_is_numeric(c: char) -> bool {
    if c <= '\u{7f}' {
        '0' <= c && c <= '9'
    } else {
        std_is_numeric(c)
    }
}

/// Tells whether `c` is white space.
pub fn is_whitespace(c: char) -> (b: bool)
    ensures
        b == char_is_whitespace(c),
{
    ('\u{9}' <= c && c <= '\u{d}') || c == ' ' || c == '\u{85}' || c == '\u{a0}' || c
        == '\u{1680}' || ('\u{2000}' <= c && c <= '\u{200a}') || c == '\u{2028}' || c
        == '\u{2029}' || c == '\u{202f}' || c == '\u{205f}' || c == '\u{3000}'
}

/// Asks `char::is_numeric`. The answer depends on the character alone, and
/// among the ASCII characters, of which the Unicode categories for numbers
/// hold the ten digits and nothing else, it is given for the digits only.
#[verifier::external_body]
pub(crate) fn is_numeric(c: char) -> (b: bool)
    ensures
        b == std_is_numeric(c),
        b == char_is_numeric(c),
{
    c.is_numeric()
}

/// Appends one character to `s`. Wraps `String::push`, which the standard
/// library documents as appending the given `char` to the end of the string.
#[verifier::external_body]
fn push_char(s: &mut String, c: char)
    ensures
        final(s)@ == old(s)@.push(c),
{
    s.push(c)
}

/// The characters of `s`, in order.
pub fn chars_of(s: &str) -> (out: Vec<char>)
    ensures
        out@ == s@,
{
    let mut out: Vec<char> = Vec::new();
    for c in it: s.chars()
        invariant
            out@ == it.seq().take(it.index() as int),
            it.seq() == s@,
    {
        out.push(c);
    }
    out
}

/// The string made of the characters of `v`, in order.
pub fn string_of(v: &Vec<char>) -> (out: String)
    ensures
        out@ == v@,
{
    let mut out = String::new();
    let mut i: usize = 0;
    while i < v.len()
        invariant
            i <= v.len(),
            out@ == v@.take(i as int),
        decreases v.len() - i,
    {
        push_char(&mut out, v[i]);
        i += 1;
        assert(v@.take(i as int) == v@.take(i as int - 1).push(v@[i as int - 1]));
    }
    out
}

/// An ASCII decimal digit.
pub open spec fn is_ascii_digit(c: char) -> bool {
    '0' <= c && c <= '9'
}

/// An ASCII capital letter.
pub open spec fn is_ascii_upper(c: char) -> bool {
    'A' <= c && c <= 'Z'
}

/// An ASCII small letter.
pub open spec fn is_ascii_lower(c: char) -> bool {
    'a' <= c && c <= 'z'
}

/// An ASCII letter or digit.
pub open spec fn is_ascii_alnum(c: char) -> bool {
    is_ascii_lower(c) || is_ascii_upper(c) || is_ascii_digit(c)
}

/// `c` with an ASCII capital turned into its small letter.
pub open spec fn ascii_lower(c: char) -> char {
    if is_ascii_upper(c) {
        ((c as u8) + 32) as char
    } else {
        c
    }
}

/// Tells whether `c` is an ASCII decimal digit.
pub fn ascii_digit(c: char) -> (b: bool)
    ensures
        b == is_ascii_digit(c),
{
    '0' <= c && c <= '9'
}

/// Tells whether `c` is an ASCII letter or digit.
pub fn ascii_alnum(c: char) -> (b: bool)
    ensures
        b == is_ascii_alnum(c),
{
    ('a' <= c && c <= 'z') || ('A' <= c && c <= 'Z') || ('0' <= c && c <= '9')
}

/// Turns an ASCII capital into its small letter, and leaves any other
/// character as it is.
pub fn to_ascii_lower(c: char) -> (r: char)
    ensures
        r == ascii_lower(c),
{
    if 'A' <= c && c <= 'Z' {
        ((c as u8) + 32) as char
    } else {
        c
    }
}

/// `pat` stands in `s` at position `i`.
pub open spec fn matches_at(s: Seq<char>, pat: Seq<char>, i: int) -> bool {
    0 <= i && i + pat.len() <= s.len() && s.subrange(i, i + pat.len()) == pat
}

/// `s` begins with `pat`.
pub open spec fn has_prefix(s: Seq<char>, pat: Seq<char>) -> bool {
    matches_at(s, pat, 0)
}

/// `s` ends with `pat`.
pub open spec fn has_suffix(s: Seq<char>, pat: Seq<char>) -> bool {
    matches_at(s, pat, s.len() - pat.len())
}

/// The least position at or after `from` where `pat` stands in `s`.
pub open spec fn first_match_from(s: Seq<char>, pat: Seq<char>, from: int) -> Option<int>
    decreases s.len() + 1 - from,
{
    if from < 0 || from + pat.len() > s.len() {
        None
    } else if matches_at(s, pat, from) {
        Some(from)
    } else {
        first_match_from(s, pat, from + 1)
    }
}

/// The least position where `pat` stands in `s`.
pub open spec fn first_match(s: Seq<char>, pat: Seq<char>) -> Option<int> {
    first_match_from(s, pat, 0)
}

/// `pat` stands somewhere in `s`.
pub open spec fn contains_text(s: Seq<char>, pat: Seq<char>) -> bool {
    first_match(s, pat) is Some
}

/// `s` with its first occurrence of `from` replaced by `to`; `s` itself
/// where `from` does not occur.
pub open spec fn replace_first(s: Seq<char>, from: Seq<char>, to: Seq<char>) -> Seq<char> {
    match first_match(s, from) {
        Some(i) => s.take(i) + to + s.skip(i + from.len()),
        None => s,
    }
}

/// The pieces of `s` between the occurrences of `sep`, taken from the left
/// without overlap. There is always at least one piece, and it is `s` itself
/// where `sep` is empty.
pub open spec fn split_text(s: Seq<char>, sep: Seq<char>) -> Seq<Seq<char>>
    decreases s.len(),
{
    match first_match(s, sep) {
        Some(i) => if sep.len() > 0 && 0 <= i && i + sep.len() <= s.len() {
            seq![s.take(i)] + split_text(s.skip(i + sep.len()), sep)
        } else {
            seq![s]
        },
        None => seq![s],
    }
}

/// `s` with every occurrence of `pat` cut out, taken from the left without
/// overlap; `s` itself where `pat` is empty.
pub open spec fn remove_all(s: Seq<char>, pat: Seq<char>) -> Seq<char>
    decreases s.len(),
{
    match first_match(s, pat) {
        Some(i) => if pat.len() > 0 && 0 <= i && i + pat.len() <= s.len() {
            s.take(i) + remove_all(s.skip(i + pat.len()), pat)
        } else {
            s
        },
        None => s,
    }
}

/// A match found from `from` on lies at or after `from`, really is a match,
/// and no position between holds one.
pub proof fn lemma_first_match_from(s: Seq<char>, pat: Seq<char>, from: int)
    requires
        0 <= from,
    ensures
        match first_match_from(s, pat, from) {
            Some(i) => from <= i && matches_at(s, pat, i) && forall|j: int|
                from <= j < i ==> !matches_at(s, pat, j),
            None => forall|j: int| from <= j ==> !matches_at(s, pat, j),
        },
    decreases s.len() + 1 - from,
{
    if from + pat.len() > s.len() {
    } else if matches_at(s, pat, from) {
    } else {
        lemma_first_match_from(s, pat, from + 1);
    }
}

/// Where `pat` stands at `i` and nowhere in `from..i`, the search from
/// `from` finds `i`.
pub proof fn lemma_first_match_is(s: Seq<char>, pat: Seq<char>, from: int, i: int)
    requires
        0 <= from <= i,
        matches_at(s, pat, i),
        forall|j: int| from <= j < i ==> !matches_at(s, pat, j),
    ensures
        first_match_from(s, pat, from) == Some(i),
    decreases i - from,
{
    if from < i {
        lemma_first_match_is(s, pat, from + 1, i);
    }
}

/// Where `pat` stands nowhere from `from` on, the search from `from` fails.
pub proof fn lemma_first_match_none(s: Seq<char>, pat: Seq<char>, from: int)
    requires
        0 <= from,
        forall|j: int| from <= j ==> !matches_at(s, pat, j),
    ensures
        first_match_from(s, pat, from) is None,
    decreases s.len() + 1 - from,
{
    if from + pat.len() <= s.len() {
        lemma_first_match_none(s, pat, from + 1);
    }
}

/// Tells whether `pat` stands in `s` at position `i`.
pub fn is_match_at(s: &Vec<char>, pat: &Vec<char>, i: usize) -> (b: bool)
    ensures
        b == matches_at(s@, pat@, i as int),
{
    if pat.len() > s.len() || i > s.len() - pat.len() {
        return false;
    }
    let mut k: usize = 0;
    while k < pat.len()
        invariant
            k <= pat.len(),
            i + pat.len() <= s.len(),
            forall|j: int| 0 <= j < k ==> s@[i + j] == pat@[j],
        decreases pat.len() - k,
    {
        if s[i + k] != pat[k] {
            assert(s@.subrange(i as int, i + pat.len())[k as int] != pat@[k as int]);
            return false;
        }
        k += 1;
    }
    assert(s@.subrange(i as int, i + pat.len()) =~= pat@);
    true
}

/// Tells whether `s` begins with `pat`.
pub fn starts_with(s: &Vec<char>, pat: &Vec<char>) -> (b: bool)
    ensures
        b == has_prefix(s@, pat@),
{
    is_match_at(s, pat, 0)
}

/// Tells whether `s` ends with `pat`.
pub fn ends_with(s: &Vec<char>, pat: &Vec<char>) -> (b: bool)
    ensures
        b == has_suffix(s@, pat@),
{
    if pat.len() > s.len() {
        false
    } else {
        is_match_at(s, pat, s.len() - pat.len())
    }
}

/// Finds the first occurrence of `pat` in `s` at or after `from`.
pub fn find_from(s: &Vec<char>, pat: &Vec<char>, from: usize) -> (found: Option<usize>)
    ensures
        match found {
            Some(i) => first_match_from(s@, pat@, from as int) == Some(i as int),
            None => first_match_from(s@, pat@, from as int) is None,
        },
{
    if pat.len() > s.len() || from > s.len() - pat.len() {
        return None;
    }
    let last: usize = s.len() - pat.len();
    let mut i: usize = from;
    loop
        invariant
            from <= i <= last,
            last == s.len() - pat.len(),
            first_match_from(s@, pat@, from as int) == first_match_from(s@, pat@, i as int),
        decreases last - i,
    {
        if is_match_at(s, pat, i) {
            return Some(i);
        }
        if i == last {
            assert(first_match_from(s@, pat@, i + 1) is None);
            return None;
        }
        i += 1;
    }
}

/// Finds the first occurrence of `pat` in `s`.
pub fn find(s: &Vec<char>, pat: &Vec<char>) -> (found: Option<usize>)
    ensures
        match found {
            Some(i) => first_match(s@, pat@) == Some(i as int),
            None => first_match(s@, pat@) is None,
        },
{
    find_from(s, pat, 0)
}

/// Copies the characters of `s` from `from` up to `to`.
pub fn slice_of(s: &Vec<char>, from: usize, to: usize) -> (out: Vec<char>)
    requires
        from <= to <= s.len(),
    ensures
        out@ == s@.subrange(from as int, to as int),
{
    let mut out: Vec<char> = Vec::new();
    let mut i: usize = from;
    while i < to
        invariant
            from <= i <= to <= s.len(),
            out@ == s@.subrange(from as int, i as int),
        decreases to - i,
    {
        out.push(s[i]);
        i += 1;
        assert(s@.subrange(from as int, i as int) == s@.subrange(from as int, i - 1).push(
            s@[i - 1],
        ));
    }
    out
}

/// Appends the characters of `tail` to `dst`.
pub fn append_chars(dst: &mut Vec<char>, tail: &Vec<char>)
    ensures
        final(dst)@ == old(dst)@ + tail@,
{
    let mut i: usize = 0;
    while i < tail.len()
        invariant
            i <= tail.len(),
            dst@ == old(dst)@ + tail@.take(i as int),
        decreases tail.len() - i,
    {
        dst.push(tail[i]);
        i += 1;
        assert(tail@.take(i as int) == tail@.take(i - 1).push(tail@[i - 1]));
        assert(dst@ =~= old(dst)@ + tail@.take(i as int));
    }
    assert(tail@.take(tail.len() as int) == tail@);
}

/// Replaces the first occurrence of `from` in `s` by `to`, and tells whether
/// there was one.
pub fn replace_first_in(s: &mut Vec<char>, from: &Vec<char>, to: &Vec<char>) -> (changed: bool)
    ensures
        final(s)@ == replace_first(old(s)@, from@, to@),
        changed == contains_text(old(s)@, from@),
{
    match find(s, from) {
        Some(i) => {
            proof {
                lemma_first_match_from(s@, from@, 0);
            }
            let mut out = slice_of(s, 0, i);
            append_chars(&mut out, to);
            let rest = slice_of(s, i + from.len(), s.len());
            append_chars(&mut out, &rest);
            assert(s@.take(i as int) == s@.subrange(0, i as int));
            assert(s@.skip(i + from.len()) == s@.subrange(i + from.len(), s.len() as int));
            *s = out;
            true
        },
        None => false,
    }
}

/// Replaces the first occurrence of `from` in `text` by `to`, and tells
/// whether there was one.
pub fn replace_string(text: &mut String, from: &str, to: &str) -> (changed: bool)
    ensures
        final(text)@ == replace_first(old(text)@, from@, to@),
        changed == contains_text(old(text)@, from@),
{
    let mut chars = chars_of(text.as_str());
    let changed = replace_first_in(&mut chars, &chars_of(from), &chars_of(to));
    if changed {
        *text = string_of(&chars);
    }
    changed
}

/// The texts that the vectors of `v` hold.
pub open spec fn texts_of(v: Seq<Vec<char>>) -> Seq<Seq<char>> {
    v.map_values(|p: Vec<char>| p@)
}

/// Splits `s` at every occurrence of `sep`. An empty `sep` splits nothing.
pub fn split(s: &Vec<char>, sep: &Vec<char>) -> (pieces: Vec<Vec<char>>)
    ensures
        texts_of(pieces@) == split_text(s@, sep@),
{
    let mut pieces: Vec<Vec<char>> = Vec::new();
    if sep.len() == 0 {
        let whole = slice_of(s, 0, s.len());
        assert(whole@ =~= s@);
        pieces.push(whole);
        assert(texts_of(pieces@) =~= seq![s@]);
        return pieces;
    }
    let mut start: usize = 0;
    assert(s@.skip(0) =~= s@);
    assert(texts_of(pieces@) + split_text(s@, sep@) =~= split_text(s@, sep@));
    loop
        invariant
            start <= s.len(),
            sep.len() > 0,
            split_text(s@, sep@) == texts_of(pieces@) + split_text(s@.skip(start as int), sep@),
        decreases s.len() - start,
    {
        let ghost rest = s@.skip(start as int);
        match find_from(s, sep, start) {
            Some(i) => {
                proof {
                    lemma_first_match_from(s@, sep@, start as int);
                    lemma_match_shift(s@, sep@, start as int, i as int);
                    assert(rest.take(i - start) == s@.subrange(start as int, i as int));
                    assert(rest.skip(i - start + sep.len()) == s@.skip(i + sep.len()));
                }
                let piece = slice_of(s, start, i);
                let ghost before = texts_of(pieces@);
                pieces.push(piece);
                assert(texts_of(pieces@) =~= before + seq![piece@]);
                start = i + sep.len();
            },
            None => {
                proof {
                    lemma_none_shift(s@, sep@, start as int);
                    assert(rest == s@.subrange(start as int, s.len() as int));
                }
                let piece = slice_of(s, start, s.len());
                let ghost before = texts_of(pieces@);
                pieces.push(piece);
                assert(texts_of(pieces@) =~= before + seq![piece@]);
                return pieces;
            },
        }
    }
}

/// Cuts every occurrence of `pat` out of `s`. An empty `pat` cuts nothing.
pub fn remove_matches(s: &Vec<char>, pat: &Vec<char>) -> (out: Vec<char>)
    ensures
        out@ == remove_all(s@, pat@),
{
    let mut out: Vec<char> = Vec::new();
    if pat.len() == 0 {
        let whole = slice_of(s, 0, s.len());
        assert(whole@ =~= s@);
        return whole;
    }
    let mut start: usize = 0;
    assert(s@.skip(0) =~= s@);
    assert(out@ + remove_all(s@, pat@) =~= remove_all(s@, pat@));
    loop
        invariant
            start <= s.len(),
            pat.len() > 0,
            remove_all(s@, pat@) == out@ + remove_all(s@.skip(start as int), pat@),
        decreases s.len() - start,
    {
        let ghost rest = s@.skip(start as int);
        match find_from(s, pat, start) {
            Some(i) => {
                proof {
                    lemma_first_match_from(s@, pat@, start as int);
                    lemma_match_shift(s@, pat@, start as int, i as int);
                    assert(rest.take(i - start) == s@.subrange(start as int, i as int));
                    assert(rest.skip(i - start + pat.len()) == s@.skip(i + pat.len()));
                }
                let piece = slice_of(s, start, i);
                let ghost before = out@;
                append_chars(&mut out, &piece);
                assert(before + piece@ + remove_all(s@.skip(i + pat.len()), pat@) =~= before + (
                piece@ + remove_all(s@.skip(i + pat.len()), pat@)));
                start = i + pat.len();
            },
            None => {
                proof {
                    lemma_none_shift(s@, pat@, start as int);
                    assert(rest == s@.subrange(start as int, s.len() as int));
                }
                let piece = slice_of(s, start, s.len());
                append_chars(&mut out, &piece);
                return out;
            },
        }
    }
}

/// Matching in the rest of `s` after `start` is matching in `s`, shifted.
pub proof fn lemma_matches_at_skip(s: Seq<char>, pat: Seq<char>, start: int, j: int)
    requires
        0 <= start <= s.len(),
        0 <= j,
    ensures
        matches_at(s.skip(start), pat, j) == matches_at(s, pat, start + j),
{
    if j + pat.len() <= s.len() - start {
        assert(s.skip(start).subrange(j, j + pat.len()) =~= s.subrange(
            start + j,
            start + j + pat.len(),
        ));
    }
}

/// A first match of `s` from `start` at `i` is a first match of the rest of
/// `s` after `start`, at `i - start`.
pub proof fn lemma_match_shift(s: Seq<char>, pat: Seq<char>, start: int, i: int)
    requires
        0 <= start <= i,
        i + pat.len() <= s.len(),
        first_match_from(s, pat, start) == Some(i),
    ensures
        first_match(s.skip(start), pat) == Some(i - start),
{
    lemma_first_match_from(s, pat, start);
    let r = s.skip(start);
    lemma_matches_at_skip(s, pat, start, i - start);
    assert forall|j: int| 0 <= j < i - start implies !matches_at(r, pat, j) by {
        lemma_matches_at_skip(s, pat, start, j);
    }
    lemma_first_match_is(r, pat, 0, i - start);
}

/// No match of `s` from `start` on means no match in the rest of `s` after
/// `start`.
pub proof fn lemma_none_shift(s: Seq<char>, pat: Seq<char>, start: int)
    requires
        0 <= start <= s.len(),
        first_match_from(s, pat, start) is None,
    ensures
        first_match(s.skip(start), pat) is None,
{
    lemma_first_match_from(s, pat, start);
    let r = s.skip(start);
    assert forall|j: int| 0 <= j implies !matches_at(r, pat, j) by {
        lemma_matches_at_skip(s, pat, start, j);
    }
    lemma_first_match_none(r, pat, 0);
}

} // verus!
