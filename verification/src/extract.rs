//! Reading characters out of the listings that other bots post: lines of
//! fields between middle dots and backticks, with a wishlist count, a series
//! and a name.

use vstd::prelude::*;
use crate::records::{characters_view, Character, CharacterView};
use crate::text::{
    char_is_whitespace, chars_of, contains_text, ends_with, find, first_match,
    has_prefix, has_suffix, is_ascii_digit, is_whitespace, lemma_first_match_from, matches_at,
    remove_all,
    remove_matches, slice_of, split, split_text, starts_with, string_of, texts_of,
};

verus! {

/// The kinds of listing that hold one character per line.
#[derive(Clone, Copy, Debug, PartialEq, Eq, Structural)]
pub enum Listing {
    /// The top-wishlist board.
    TopWishlist,
    /// A card collection ordered by wishlist.
    Collection,
    /// The results of a character search.
    Results,
    /// A drop analysis.
    Analysis,
}

/// What a line of a listing yields.
pub ghost enum LineYield {
    /// The line describes this character.
    Card(CharacterView),
    /// The line describes none.
    Skip,
    /// The listing is of another kind: nothing is read from here on.
    Stop,
}

/// ` · `, which separates the fields of a line.
pub open spec fn field_sep() -> Seq<char> {
    seq![' ', '\u{b7}', ' ']
}

/// The backtick that sets a count or a code apart.
pub open spec fn tick() -> Seq<char> {
    seq!['`']
}

/// `**`, which marks a name as bold.
pub open spec fn bold() -> Seq<char> {
    seq!['*', '*']
}

/// `~~`, which strikes a line through.
pub open spec fn strike() -> Seq<char> {
    seq!['~', '~']
}

/// The comma that groups the digits of a count.
pub open spec fn comma() -> Seq<char> {
    seq![',']
}

/// The line break that separates the lines of a listing.
pub open spec fn new_line() -> Seq<char> {
    seq!['\n']
}

/// The outlined heart that precedes a wishlist count.
pub open spec fn heart() -> Seq<char> {
    seq!['\u{2661}']
}

/// The word by which a lookup card speaks of wishlists.
pub open spec fn wishlisted() -> Seq<char> {
    seq!['W', 'i', 's', 'h', 'l', 'i', 's', 't', 'e', 'd']
}

/// `** (`, which opens a note behind a name.
pub open spec fn note_opening() -> Seq<char> {
    seq!['*', '*', ' ', '(']
}

/// `-PRINT]`, which closes a print number.
pub open spec fn print_mark() -> Seq<char> {
    seq!['-', 'P', 'R', 'I', 'N', 'T', ']']
}

/// `?`, which stands for a count that is not known.
pub open spec fn doubt() -> Seq<char> {
    seq!['?']
}

/// The number that a row of decimal digits writes.
pub open spec fn digits_value(s: Seq<char>) -> nat
    decreases s.len(),
{
    if s.len() == 0 {
        0
    } else {
        digits_value(s.drop_last()) * 10 + (s.last() as nat - '0' as nat) as nat
    }
}

/// Every character of `s` is a decimal digit.
pub open spec fn all_digits(s: Seq<char>) -> bool {
    forall|i: int| 0 <= i < s.len() ==> is_ascii_digit(#[trigger] s[i])
}

/// The number that `s` writes, where it is no more than `max`: decimal
/// digits, at least one, after at most one `+`.
pub open spec fn parsed_within(s: Seq<char>, max: nat) -> Option<nat> {
    let digits = if s.len() > 0 && s[0] == '+' {
        s.skip(1)
    } else {
        s
    };
    if digits.len() > 0 && all_digits(digits) && digits_value(digits) <= max {
        Some(digits_value(digits))
    } else {
        None
    }
}

/// The number that `s` writes, where it fits into 32 bits.
pub open spec fn parsed_u32(s: Seq<char>) -> Option<u32> {
    match parsed_within(s, u32::MAX as nat) {
        Some(n) => Some(n as u32),
        None => None,
    }
}

/// The number that `s` writes, where it fits into 64 bits.
pub open spec fn parsed_u64(s: Seq<char>) -> Option<u64> {
    match parsed_within(s, u64::MAX as nat) {
        Some(n) => Some(n as u64),
        None => None,
    }
}

/// Without the white space at its start.
pub open spec fn trim_start(s: Seq<char>) -> Seq<char>
    decreases s.len(),
{
    if s.len() > 0 && char_is_whitespace(s[0]) {
        trim_start(s.skip(1))
    } else {
        s
    }
}

/// Without the white space at its end.
pub open spec fn trim_end(s: Seq<char>) -> Seq<char>
    decreases s.len(),
{
    if s.len() > 0 && char_is_whitespace(s.last()) {
        trim_end(s.drop_last())
    } else {
        s
    }
}

/// Without the white space at either end.
pub open spec fn trimmed(s: Seq<char>) -> Seq<char> {
    trim_end(trim_start(s))
}

/// Without any white space.
pub open spec fn squeezed(s: Seq<char>) -> Seq<char> {
    s.filter(|c: char| !char_is_whitespace(c))
}

/// `s` without its last character, where it has one.
pub open spec fn without_last(s: Seq<char>) -> Seq<char> {
    if s.len() > 0 {
        s.drop_last()
    } else {
        s
    }
}

/// The last position of `c` in the first `upto` characters of `s`.
pub open spec fn last_index_of(s: Seq<char>, c: char, upto: int) -> Option<int>
    decreases upto,
{
    if upto <= 0 {
        None
    } else if s[upto - 1] == c {
        Some(upto - 1)
    } else {
        last_index_of(s, c, upto - 1)
    }
}

/// A count written with thousands separators and stray white space.
pub open spec fn grouped_count(s: Seq<char>) -> Option<u32> {
    parsed_u32(squeezed(remove_all(s, comma())))
}

/// The count in a field of the top-wishlist board: three characters of
/// decoration before it and one after.
pub open spec fn board_count(field: Seq<char>) -> Option<u32> {
    if field.len() < 3 {
        None
    } else {
        grouped_count(without_last(field.skip(3)))
    }
}

/// The record that a line of a listing describes.
pub open spec fn card(wishlist: u32, series: Seq<char>, name: Seq<char>) -> CharacterView {
    CharacterView { wishlist: Some(wishlist), name, series, last_update_ts: 0 }
}

/// A line of the top-wishlist board: rank, count, series, name.
pub open spec fn board_line(line: Seq<char>) -> LineYield {
    let parts = split_text(line, field_sep());
    if parts.len() < 4 {
        LineYield::Skip
    } else {
        match board_count(parts[1]) {
            Some(w) => LineYield::Card(card(w, parts[2], remove_all(parts[3], bold()))),
            None => LineYield::Skip,
        }
    }
}

/// A line of a collection: a block of tag and count between backticks, four
/// more fields, then series and name. A line whose block holds no heart ends
/// the reading.
pub open spec fn collection_line(raw: Seq<char>) -> LineYield {
    let line = remove_all(raw, strike());
    if !has_suffix(line, bold()) {
        LineYield::Skip
    } else {
        let parts = split_text(line, field_sep());
        let ticks = split_text(parts[0], tick());
        if ticks.len() < 2 || !has_prefix(ticks[1], heart()) {
            LineYield::Stop
        } else {
            match parsed_u32(trimmed(ticks[1].skip(1))) {
                Some(w) => if parts.len() < 7 {
                    LineYield::Skip
                } else {
                    LineYield::Card(card(w, parts[5], remove_all(parts[6], bold())))
                },
                None => LineYield::Skip,
            }
        }
    }
}

/// A line of search results: a number and a count, each between backticks,
/// then series and name.
pub open spec fn results_line(line: Seq<char>) -> LineYield {
    if !has_suffix(line, bold()) {
        LineYield::Skip
    } else {
        let ticks = split_text(line, tick());
        if ticks.len() < 5 || ticks[3].len() == 0 {
            LineYield::Skip
        } else {
            let parts = split_text(ticks[4], field_sep());
            match parsed_u32(trimmed(ticks[3].skip(1))) {
                Some(w) => if parts.len() < 3 {
                    LineYield::Skip
                } else {
                    LineYield::Card(card(w, parts[1], remove_all(parts[2], bold())))
                },
                None => LineYield::Skip,
            }
        }
    }
}

/// The name in a line of a drop analysis: cut before `** (`, without the
/// bold marks, and cut one character before the last `[` where a print
/// number follows.
pub open spec fn analysis_name(field: Seq<char>) -> Seq<char> {
    let cut = match first_match(field, note_opening()) {
        Some(i) => field.take(i),
        None => field,
    };
    let plain = remove_all(cut, bold());
    match last_index_of(plain, '[', plain.len() as int) {
        Some(i) => if contains_text(plain, print_mark()) {
            if i > 0 {
                plain.take(i - 1)
            } else {
                Seq::empty()
            }
        } else {
            plain
        },
        None => plain,
    }
}

/// A line of a drop analysis: after the first backtick a heart and a count,
/// a backtick, then series and name.
pub open spec fn analysis_line(line: Seq<char>) -> LineYield {
    match first_match(line, tick()) {
        None => LineYield::Skip,
        Some(i) => {
            let ticks = split_text(line.skip(i + 1), tick());
            let count = ticks[0];
            if count.len() == 0 || has_prefix(count.skip(1), doubt()) {
                LineYield::Skip
            } else {
                match grouped_count(count.skip(1)) {
                    None => LineYield::Skip,
                    Some(w) => if ticks.len() < 2 {
                        LineYield::Skip
                    } else {
                        let parts = split_text(ticks[1], field_sep());
                        if parts.len() < 2 {
                            LineYield::Skip
                        } else {
                            LineYield::Card(card(w, trimmed(parts[0]), analysis_name(parts[1])))
                        }
                    },
                }
            }
        },
    }
}

/// What a line of a listing of kind `kind` yields.
pub open spec fn line_yield(kind: Listing, line: Seq<char>) -> LineYield {
    match kind {
        Listing::TopWishlist => board_line(line),
        Listing::Collection => collection_line(line),
        Listing::Results => results_line(line),
        Listing::Analysis => analysis_line(line),
    }
}

/// Whether one of the first `upto` lines ends the reading.
pub open spec fn stops_within(kind: Listing, lines: Seq<Seq<char>>, upto: int) -> bool
    decreases upto,
{
    upto > 0 && (stops_within(kind, lines, upto - 1) || line_yield(kind, lines[upto - 1])
        is Stop)
}

/// The characters of the first `upto` lines, in order, up to the line that
/// ends the reading.
pub open spec fn gathered(kind: Listing, lines: Seq<Seq<char>>, upto: int) -> Seq<CharacterView>
    decreases upto,
{
    if upto <= 0 {
        Seq::empty()
    } else {
        let before = gathered(kind, lines, upto - 1);
        if stops_within(kind, lines, upto - 1) {
            before
        } else {
            match line_yield(kind, lines[upto - 1]) {
                LineYield::Card(c) => before.push(c),
                _ => before,
            }
        }
    }
}

/// The lines of a listing that hold characters: all of them, but in a drop
/// analysis the two lines of heading are left out.
pub open spec fn body_lines(kind: Listing, content: Seq<char>) -> Seq<Seq<char>> {
    let lines = split_text(content, new_line());
    if kind == Listing::Analysis {
        if lines.len() >= 2 {
            lines.skip(2)
        } else {
            Seq::empty()
        }
    } else {
        lines
    }
}

/// The characters that a listing of kind `kind` holds.
pub open spec fn listed(kind: Listing, content: Seq<char>) -> Seq<CharacterView> {
    let lines = body_lines(kind, content);
    gathered(kind, lines, lines.len() as int)
}

/// The second field of a line, without its bold marks.
pub open spec fn second_field(line: Seq<char>) -> Option<Seq<char>> {
    let parts = split_text(line, field_sep());
    if parts.len() < 2 {
        None
    } else {
        Some(remove_all(parts[1], bold()))
    }
}

/// The first line from `from` on that speaks of wishlists.
pub open spec fn wishlist_line(lines: Seq<Seq<char>>, from: int) -> Option<Seq<char>>
    decreases lines.len() - from,
{
    if from < 0 || from >= lines.len() {
        None
    } else if contains_text(lines[from], wishlisted()) {
        Some(lines[from])
    } else {
        wishlist_line(lines, from + 1)
    }
}

/// The character that a lookup card describes: the name in the first line,
/// the series in the second, the count in the first later line that speaks
/// of wishlists.
pub open spec fn looked_up(content: Seq<char>) -> Option<CharacterView> {
    let lines = split_text(content, new_line());
    if lines.len() < 2 {
        None
    } else {
        match (second_field(lines[0]), second_field(lines[1]), wishlist_line(lines, 2)) {
            (Some(name), Some(series), Some(line)) => match second_field(line) {
                Some(count) => match parsed_u32(remove_all(count, comma())) {
                    Some(w) => Some(card(w, series, name)),
                    None => None,
                },
                None => None,
            },
            _ => None,
        }
    }
}

fn field_sep_chars() -> (v: Vec<char>)
    ensures
        v@ == field_sep(),
{
    let v: Vec<char> = vec![' ', '\u{b7}', ' '];
    assert(v@ =~= field_sep());
    v
}

fn bold_chars() -> (v: Vec<char>)
    ensures
        v@ == bold(),
{
    let v: Vec<char> = vec!['*', '*'];
    assert(v@ =~= bold());
    v
}

fn strike_chars() -> (v: Vec<char>)
    ensures
        v@ == strike(),
{
    let v: Vec<char> = vec!['~', '~'];
    assert(v@ =~= strike());
    v
}

fn tick_chars() -> (v: Vec<char>)
    ensures
        v@ == tick(),
{
    let v: Vec<char> = vec!['`'];
    assert(v@ =~= tick());
    v
}

fn comma_chars() -> (v: Vec<char>)
    ensures
        v@ == comma(),
{
    let v: Vec<char> = vec![','];
    assert(v@ =~= comma());
    v
}

fn new_line_chars() -> (v: Vec<char>)
    ensures
        v@ == new_line(),
{
    let v: Vec<char> = vec!['\n'];
    assert(v@ =~= new_line());
    v
}

fn heart_chars() -> (v: Vec<char>)
    ensures
        v@ == heart(),
{
    let v: Vec<char> = vec!['\u{2661}'];
    assert(v@ =~= heart());
    v
}

fn wishlisted_chars() -> (v: Vec<char>)
    ensures
        v@ == wishlisted(),
{
    let v: Vec<char> = vec!['W', 'i', 's', 'h', 'l', 'i', 's', 't', 'e', 'd'];
    assert(v@ =~= wishlisted());
    v
}

fn note_chars() -> (v: Vec<char>)
    ensures
        v@ == note_opening(),
{
    let v: Vec<char> = vec!['*', '*', ' ', '('];
    assert(v@ =~= note_opening());
    v
}

fn print_chars() -> (v: Vec<char>)
    ensures
        v@ == print_mark(),
{
    let v: Vec<char> = vec!['-', 'P', 'R', 'I', 'N', 'T', ']'];
    assert(v@ =~= print_mark());
    v
}

fn doubt_chars() -> (v: Vec<char>)
    ensures
        v@ == doubt(),
{
    let v: Vec<char> = vec!['?'];
    assert(v@ =~= doubt());
    v
}

/// Digits only ever add to the number they write.
proof fn lemma_digits_value_grows(s: Seq<char>)
    requires
        s.len() > 0,
        all_digits(s),
    ensures
        digits_value(s) >= digits_value(s.drop_last()),
{
    assert(is_ascii_digit(s[s.len() - 1]));
}

/// Reads a decimal number that is no more than `max`.
pub fn parse_within(s: &Vec<char>, max: u64) -> (n: Option<u64>)
    ensures
        match n {
            Some(v) => parsed_within(s@, max as nat) == Some(v as nat),
            None => parsed_within(s@, max as nat) is None,
        },
{
    let mut i: usize = 0;
    if s.len() > 0 && s[0] == '+' {
        i = 1;
    }
    let from = i;
    if i == s.len() {
        return None;
    }
    let ghost digits = s@.skip(from as int);
    assert(s@.skip(0) =~= s@);
    let mut acc: u128 = 0;
    let mut fits = true;
    assert(digits.take(0) =~= Seq::<char>::empty());
    while i < s.len()
        invariant
            from <= i <= s.len(),
            digits == s@.skip(from as int),
            digits == if s@.len() > 0 && s@[0] == '+' {
                s@.skip(1)
            } else {
                s@
            },
            all_digits(digits.take(i - from)),
            fits ==> acc == digits_value(digits.take(i - from)) && acc <= max,
            !fits ==> digits_value(digits.take(i - from)) > max,
        decreases s.len() - i,
    {
        let c = s[i];
        proof {
            let now = digits.take(i - from + 1);
            assert(now.drop_last() =~= digits.take(i - from));
            assert(now.last() == c);
        }
        if !('0' <= c && c <= '9') {
            assert(!is_ascii_digit(digits[i - from]));
            return None;
        }
        proof {
            let now = digits.take(i - from + 1);
            assert forall|j: int| 0 <= j < now.len() implies is_ascii_digit(#[trigger] now[j]) by {
                if j < now.len() - 1 {
                    assert(now[j] == digits.take(i - from)[j]);
                }
            }
            lemma_digits_value_grows(now);
        }
        if fits {
            let d: u128 = (c as u8 - '0' as u8) as u128;
            let next: u128 = acc * 10 + d;
            if next > max as u128 {
                fits = false;
            } else {
                acc = next;
            }
        }
        i += 1;
    }
    assert(digits.take(digits.len() as int) =~= digits);
    if fits {
        Some(acc as u64)
    } else {
        None
    }
}

/// Reads a decimal number of 32 bits.
pub fn parse_u32(s: &Vec<char>) -> (n: Option<u32>)
    ensures
        n == parsed_u32(s@),
{
    match parse_within(s, 0xffff_ffff) {
        Some(v) => Some(v as u32),
        None => None,
    }
}

/// Reads a decimal number of 64 bits.
pub fn parse_u64(s: &Vec<char>) -> (n: Option<u64>)
    ensures
        n == parsed_u64(s@),
{
    parse_within(s, 0xffff_ffff_ffff_ffff)
}

/// Cuts the white space off both ends.
pub fn trim(s: &Vec<char>) -> (out: Vec<char>)
    ensures
        out@ == trimmed(s@),
{
    let mut from: usize = 0;
    assert(s@.skip(0) =~= s@);
    loop
        invariant
            from <= s.len(),
            trim_start(s@) == trim_start(s@.skip(from as int)),
        ensures
            from <= s.len(),
            trim_start(s@) == s@.skip(from as int),
        decreases s.len() - from,
    {
        if from == s.len() {
            break;
        }
        if !is_whitespace(s[from]) {
            break;
        }
        proof {
            lemma_trim_start_step(s@, from as int);
        }
        from += 1;
    }
    let ghost front = s@.skip(from as int);
    let mut to: usize = s.len();
    assert(front.take(front.len() as int) =~= front);
    loop
        invariant
            from <= to <= s.len(),
            front == s@.skip(from as int),
            trim_end(front) == trim_end(front.take(to - from)),
        ensures
            from <= to <= s.len(),
            trim_end(front) == front.take(to - from),
        decreases to - from,
    {
        if to == from {
            break;
        }
        if !is_whitespace(s[to - 1]) {
            break;
        }
        proof {
            lemma_trim_end_step(front, to - from);
        }
        to -= 1;
    }
    let out = slice_of(s, from, to);
    assert(out@ =~= front.take(to - from));
    out
}

/// White space at position `k` is trimmed along with what stands before it.
proof fn lemma_trim_start_step(s: Seq<char>, k: int)
    requires
        0 <= k < s.len(),
        char_is_whitespace(s[k]),
    ensures
        trim_start(s.skip(k)) == trim_start(s.skip(k + 1)),
{
    assert(s.skip(k).skip(1) =~= s.skip(k + 1));
    assert(s.skip(k)[0] == s[k]);
}

/// White space at position `k - 1` is trimmed along with what stands behind
/// it.
proof fn lemma_trim_end_step(s: Seq<char>, k: int)
    requires
        0 < k <= s.len(),
        char_is_whitespace(s[k - 1]),
    ensures
        trim_end(s.take(k)) == trim_end(s.take(k - 1)),
{
    assert(s.take(k).drop_last() =~= s.take(k - 1));
    assert(s.take(k).last() == s[k - 1]);
}

/// Cuts all white space out.
pub fn squeeze(s: &Vec<char>) -> (out: Vec<char>)
    ensures
        out@ == squeezed(s@),
{
    let mut out: Vec<char> = Vec::new();
    let mut i: usize = 0;
    let ghost solid = |c: char| !char_is_whitespace(c);
    assert(s@.take(0) =~= Seq::<char>::empty());
    while i < s.len()
        invariant
            i <= s.len(),
            solid == |c: char| !char_is_whitespace(c),
            out@ == s@.take(i as int).filter(solid),
        decreases s.len() - i,
    {
        let c = s[i];
        proof {
            let now = s@.take(i + 1);
            assert(now.drop_last() =~= s@.take(i as int));
            assert(now.last() == c);
            reveal(Seq::filter);
        }
        if !is_whitespace(c) {
            out.push(c);
        }
        i += 1;
    }
    assert(s@.take(s.len() as int) =~= s@);
    out
}

fn parse_grouped(s: &Vec<char>) -> (n: Option<u32>)
    ensures
        n == grouped_count(s@),
{
    let comma = comma_chars();
    let plain = remove_matches(s, &comma);
    parse_u32(&squeeze(&plain))
}

fn rfind_char(s: &Vec<char>, c: char) -> (found: Option<usize>)
    ensures
        match found {
            Some(i) => last_index_of(s@, c, s.len() as int) == Some(i as int) && i < s.len(),
            None => last_index_of(s@, c, s.len() as int) is None,
        },
{
    let mut i: usize = s.len();
    while i > 0
        invariant
            i <= s.len(),
            last_index_of(s@, c, s.len() as int) == last_index_of(s@, c, i as int),
        decreases i,
    {
        if s[i - 1] == c {
            return Some(i - 1);
        }
        i -= 1;
    }
    None
}

fn make_card(wishlist: u32, series: &Vec<char>, name: &Vec<char>) -> (c: Character)
    ensures
        c@ == card(wishlist, series@, name@),
{
    Character {
        wishlist: Some(wishlist),
        name: string_of(name),
        series: string_of(series),
        last_update_ts: 0,
    }
}

/// What reading a line yields.
enum Reading {
    Card(Character),
    Skip,
    Stop,
}

spec fn reading_view(r: Reading) -> LineYield {
    match r {
        Reading::Card(c) => LineYield::Card(c@),
        Reading::Skip => LineYield::Skip,
        Reading::Stop => LineYield::Stop,
    }
}

fn read_board_line(line: &Vec<char>) -> (r: Reading)
    ensures
        reading_view(r) == board_line(line@),
{
    let sep = field_sep_chars();
    let bold = bold_chars();
    let parts = split(line, &sep);
    assert(texts_of(parts@).len() == parts@.len());
    if parts.len() < 4 {
        return Reading::Skip;
    }
    let field = &parts[1];
    assert(texts_of(parts@)[1] == field@);
    assert(texts_of(parts@)[2] == parts@[2]@);
    assert(texts_of(parts@)[3] == parts@[3]@);
    if field.len() < 3 {
        return Reading::Skip;
    }
    let to = if field.len() > 3 {
        field.len() - 1
    } else {
        3
    };
    let digits = slice_of(field, 3, to);
    assert(digits@ =~= without_last(field@.skip(3)));
    match parse_grouped(&digits) {
        Some(w) => Reading::Card(make_card(w, &parts[2], &remove_matches(&parts[3], &bold))),
        None => Reading::Skip,
    }
}

fn read_collection_line(raw: &Vec<char>) -> (r: Reading)
    ensures
        reading_view(r) == collection_line(raw@),
{
    let sep = field_sep_chars();
    let bold = bold_chars();
    let strike = strike_chars();
    let tick = tick_chars();
    let heart = heart_chars();
    let line = remove_matches(raw, &strike);
    if !ends_with(&line, &bold) {
        return Reading::Skip;
    }
    let parts = split(&line, &sep);
    assert(texts_of(parts@).len() == parts@.len());
    proof {
        lemma_split_nonempty(line@, sep@);
    }
    assert(texts_of(parts@)[0] == parts@[0]@);
    let ticks = split(&parts[0], &tick);
    assert(texts_of(ticks@).len() == ticks@.len());
    if ticks.len() < 2 {
        return Reading::Stop;
    }
    let block = &ticks[1];
    assert(texts_of(ticks@)[1] == block@);
    if !starts_with(block, &heart) {
        return Reading::Stop;
    }
    let digits = slice_of(block, 1, block.len());
    assert(digits@ =~= block@.skip(1));
    match parse_u32(&trim(&digits)) {
        Some(w) => {
            if parts.len() < 7 {
                return Reading::Skip;
            }
            assert(texts_of(parts@)[5] == parts@[5]@);
            assert(texts_of(parts@)[6] == parts@[6]@);
            Reading::Card(make_card(w, &parts[5], &remove_matches(&parts[6], &bold)))
        },
        None => Reading::Skip,
    }
}

fn read_results_line(line: &Vec<char>) -> (r: Reading)
    ensures
        reading_view(r) == results_line(line@),
{
    let sep = field_sep_chars();
    let bold = bold_chars();
    let tick = tick_chars();
    if !ends_with(line, &bold) {
        return Reading::Skip;
    }
    let ticks = split(line, &tick);
    assert(texts_of(ticks@).len() == ticks@.len());
    if ticks.len() < 5 {
        return Reading::Skip;
    }
    let block = &ticks[3];
    assert(texts_of(ticks@)[3] == block@);
    assert(texts_of(ticks@)[4] == ticks@[4]@);
    if block.len() == 0 {
        return Reading::Skip;
    }
    let digits = slice_of(block, 1, block.len());
    assert(digits@ =~= block@.skip(1));
    let parts = split(&ticks[4], &sep);
    assert(texts_of(parts@).len() == parts@.len());
    match parse_u32(&trim(&digits)) {
        Some(w) => {
            if parts.len() < 3 {
                return Reading::Skip;
            }
            assert(texts_of(parts@)[1] == parts@[1]@);
            assert(texts_of(parts@)[2] == parts@[2]@);
            Reading::Card(make_card(w, &parts[1], &remove_matches(&parts[2], &bold)))
        },
        None => Reading::Skip,
    }
}

fn read_analysis_name(field: &Vec<char>) -> (name: Vec<char>)
    ensures
        name@ == analysis_name(field@),
{
    let bold = bold_chars();
    let note = note_chars();
    let print = print_chars();
    let cut = match find(field, &note) {
        Some(i) => {
            proof {
                lemma_first_match_from(field@, note@, 0);
            }
            let head = slice_of(field, 0, i);
            assert(head@ =~= field@.take(i as int));
            head
        },
        None => {
            let whole = slice_of(field, 0, field.len());
            assert(whole@ =~= field@);
            whole
        },
    };
    let plain = remove_matches(&cut, &bold);
    match rfind_char(&plain, '[') {
        Some(i) => {
            if find(&plain, &print).is_some() {
                if i > 0 {
                    let head = slice_of(&plain, 0, i - 1);
                    assert(head@ =~= plain@.take(i - 1));
                    head
                } else {
                    Vec::new()
                }
            } else {
                plain
            }
        },
        None => plain,
    }
}

fn read_analysis_line(line: &Vec<char>) -> (r: Reading)
    ensures
        reading_view(r) == analysis_line(line@),
{
    let sep = field_sep_chars();
    let tick = tick_chars();
    let doubt = doubt_chars();
    match find(line, &tick) {
        None => Reading::Skip,
        Some(i) => {
            proof {
                lemma_first_match_from(line@, tick@, 0);
                assert(first_match(line@, tick@) == Some(i as int));
                assert(matches_at(line@, tick@, i as int));
                assert(tick@.len() == 1);
                assert(i + 1 <= line@.len());
            }
            assert(i < line.len());
            let rest = slice_of(line, i + 1, line.len());
            assert(rest@ =~= line@.skip(i as int + 1));
            let ticks = split(&rest, &tick);
            assert(texts_of(ticks@).len() == ticks@.len());
            proof {
                lemma_split_nonempty(rest@, tick@);
            }
            let count = &ticks[0];
            assert(texts_of(ticks@)[0] == count@);
            if count.len() == 0 {
                return Reading::Skip;
            }
            let digits = slice_of(count, 1, count.len());
            assert(digits@ =~= count@.skip(1));
            if starts_with(&digits, &doubt) {
                return Reading::Skip;
            }
            match parse_grouped(&digits) {
                None => Reading::Skip,
                Some(w) => {
                    if ticks.len() < 2 {
                        return Reading::Skip;
                    }
                    assert(texts_of(ticks@)[1] == ticks@[1]@);
                    let parts = split(&ticks[1], &sep);
                    assert(texts_of(parts@).len() == parts@.len());
                    if parts.len() < 2 {
                        return Reading::Skip;
                    }
                    assert(texts_of(parts@)[0] == parts@[0]@);
                    assert(texts_of(parts@)[1] == parts@[1]@);
                    Reading::Card(
                        make_card(w, &trim(&parts[0]), &read_analysis_name(&parts[1])),
                    )
                },
            }
        },
    }
}

/// A text always splits into at least one piece.
pub proof fn lemma_split_nonempty(s: Seq<char>, sep: Seq<char>)
    ensures
        split_text(s, sep).len() >= 1,
    decreases s.len(),
{
    match first_match(s, sep) {
        Some(i) => {
            if sep.len() > 0 && 0 <= i && i + sep.len() <= s.len() {
                lemma_split_nonempty(s.skip(i + sep.len()), sep);
            }
        },
        None => {},
    }
}

fn read_line(kind: Listing, line: &Vec<char>) -> (r: Reading)
    ensures
        reading_view(r) == line_yield(kind, line@),
{
    match kind {
        Listing::TopWishlist => read_board_line(line),
        Listing::Collection => read_collection_line(line),
        Listing::Results => read_results_line(line),
        Listing::Analysis => read_analysis_line(line),
    }
}

/// Reads the characters out of a listing of kind `kind`.
pub fn read_listing(kind: Listing, content: &str) -> (cards: Vec<Character>)
    ensures
        characters_view(cards@) == listed(kind, content@),
{
    let text = chars_of(content);
    let new_line = new_line_chars();
    let lines = split(&text, &new_line);
    let n = lines.len();
    assert(texts_of(lines@).len() == n);
    let first: usize = if kind == Listing::Analysis {
        if n >= 2 {
            2
        } else {
            n
        }
    } else {
        0
    };
    let ghost body = body_lines(kind, content@);
    assert(body =~= texts_of(lines@).skip(first as int));
    let mut cards: Vec<Character> = Vec::new();
    let mut stopped = false;
    let mut i: usize = first;
    assert(characters_view(cards@) =~= Seq::<CharacterView>::empty());
    while i < n && !stopped
        invariant
            first <= i <= n,
            n == lines.len(),
            body == texts_of(lines@).skip(first as int),
            stopped == stops_within(kind, body, i - first),
            characters_view(cards@) == gathered(kind, body, i - first),
        decreases n - i,
    {
        let line = &lines[i];
        assert(body[i - first] == line@);
        let ghost before = characters_view(cards@);
        match read_line(kind, line) {
            Reading::Card(c) => {
                cards.push(c);
                assert(characters_view(cards@) =~= before.push(c@));
            },
            Reading::Skip => {},
            Reading::Stop => {
                stopped = true;
            },
        }
        i += 1;
    }
    proof {
        lemma_gathered_after_stop(kind, body, i - first, n - first);
    }
    cards
}

/// Once the reading has ended, later lines add nothing.
pub proof fn lemma_gathered_after_stop(kind: Listing, lines: Seq<Seq<char>>, at: int, upto: int)
    requires
        0 <= at <= upto,
        at == upto || stops_within(kind, lines, at),
    ensures
        gathered(kind, lines, upto) == gathered(kind, lines, at),
    decreases upto - at,
{
    if at < upto {
        lemma_gathered_after_stop(kind, lines, at, upto - 1);
        lemma_stop_lasts(kind, lines, at, upto - 1);
    }
}

/// A reading that has ended stays ended.
pub proof fn lemma_stop_lasts(kind: Listing, lines: Seq<Seq<char>>, at: int, upto: int)
    requires
        0 <= at <= upto,
        stops_within(kind, lines, at),
    ensures
        stops_within(kind, lines, upto),
    decreases upto - at,
{
    if at < upto {
        lemma_stop_lasts(kind, lines, at, upto - 1);
    }
}

/// Reads the top-wishlist board.
pub fn parse_cards_from_qingque_atopwl(content: &String) -> (cards: Vec<Character>)
    ensures
        characters_view(cards@) == listed(Listing::TopWishlist, content@),
{
    read_listing(Listing::TopWishlist, content.as_str())
}

/// Reads a card collection ordered by wishlist.
pub fn parse_cards_from_katana_kc_ow(content: &String) -> (cards: Vec<Character>)
    ensures
        characters_view(cards@) == listed(Listing::Collection, content@),
{
    read_listing(Listing::Collection, content.as_str())
}

/// Reads the results of a character search.
pub fn parse_cards_from_katana_klu_results(content: &String) -> (cards: Vec<Character>)
    ensures
        characters_view(cards@) == listed(Listing::Results, content@),
{
    read_listing(Listing::Results, content.as_str())
}

/// Reads a drop analysis.
pub fn parse_cards_from_calf_analysis(content: &String) -> (cards: Vec<Character>)
    ensures
        characters_view(cards@) == listed(Listing::Analysis, content@),
{
    read_listing(Listing::Analysis, content.as_str())
}

fn read_second_field(line: &Vec<char>) -> (field: Option<Vec<char>>)
    ensures
        match field {
            Some(f) => second_field(line@) == Some(f@),
            None => second_field(line@) is None,
        },
{
    let sep = field_sep_chars();
    let bold = bold_chars();
    let parts = split(line, &sep);
    assert(texts_of(parts@).len() == parts@.len());
    if parts.len() < 2 {
        return None;
    }
    assert(texts_of(parts@)[1] == parts@[1]@);
    Some(remove_matches(&parts[1], &bold))
}

/// Reads the card of a character lookup.
pub fn parse_cards_from_katana_klu_lookup(content: &String) -> (found: Option<Character>)
    ensures
        match found {
            Some(c) => looked_up(content@) == Some(c@),
            None => looked_up(content@) is None,
        },
{
    let text = chars_of(content.as_str());
    let new_line = new_line_chars();
    let comma = comma_chars();
    let word = wishlisted_chars();
    let lines = split(&text, &new_line);
    let n = lines.len();
    let ghost all = texts_of(lines@);
    assert(all.len() == n);
    if n < 2 {
        return None;
    }
    assert(all[0] == lines@[0]@);
    assert(all[1] == lines@[1]@);
    let name = match read_second_field(&lines[0]) {
        Some(f) => f,
        None => {
            return None;
        },
    };
    let series = match read_second_field(&lines[1]) {
        Some(f) => f,
        None => {
            return None;
        },
    };
    let mut i: usize = 2;
    let mut found = false;
    while i < n && !found
        invariant
            2 <= i <= n,
            n == lines.len(),
            all == texts_of(lines@),
            word@ == wishlisted(),
            wishlist_line(all, 2) == wishlist_line(all, i as int),
            found ==> i < n && contains_text(all[i as int], wishlisted()),
        decreases n - i + if found { 0int } else { 1int },
    {
        assert(all[i as int] == lines@[i as int]@);
        if find(&lines[i], &word).is_some() {
            found = true;
        } else {
            i += 1;
        }
    }
    if !found {
        return None;
    }
    assert(all[i as int] == lines@[i as int]@);
    let count = match read_second_field(&lines[i]) {
        Some(f) => f,
        None => {
            return None;
        },
    };
    match parse_u32(&remove_matches(&count, &comma)) {
        Some(w) => Some(make_card(w, &series, &name)),
        None => None,
    }
}

} // verus!
