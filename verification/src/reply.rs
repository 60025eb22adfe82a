//! The line that tells a user about one card of a drop.

use vstd::prelude::*;
use crate::records::{DroppedCard, DroppedCardView};
use crate::text::{append_chars, chars_of, string_of};

verus! {

/// The character that writes the digit `d`.
pub open spec fn digit_char(d: nat) -> char
    recommends
        d < 10,
{
    (('0' as u8) + d as u8) as char
}

/// The decimal digits of `n`, without leading zeros.
pub open spec fn decimal_text(n: nat) -> Seq<char>
    decreases n,
{
    if n < 10 {
        seq![digit_char(n)]
    } else {
        decimal_text(n / 10).push(digit_char(n % 10))
    }
}

/// The decimal digits of `n`, after a minus sign where `n` is negative.
pub open spec fn signed_text(n: int) -> Seq<char> {
    if n < 0 {
        seq!['-'] + decimal_text((-n) as nat)
    } else {
        decimal_text(n as nat)
    }
}

/// `s`, followed by as many spaces as it is shorter than `width`.
pub open spec fn padded_right(s: Seq<char>, width: nat) -> Seq<char>
    decreases width - s.len(),
{
    if s.len() >= width {
        s
    } else {
        padded_right(s.push(' '), width)
    }
}

/// The wishlist count in a column five characters wide.
pub open spec fn wishlist_text(wishlist: Option<u32>) -> Seq<char> {
    match wishlist {
        Some(n) => padded_right(decimal_text(n as nat), 5),
        None => "None "@,
    }
}

/// When the record was last written, as a time relative to now; `Never` for
/// a record that never was.
pub open spec fn stamp_text(ts: i64) -> Seq<char> {
    if ts == 0 {
        "`Never`"@
    } else {
        "<t:"@ + signed_text(ts as int) + ":R>"@
    }
}

/// The line for one card: wishlist count, print, name, series, last update.
pub open spec fn card_line(card: DroppedCardView) -> Seq<char> {
    ":heart: `"@ + wishlist_text(card.character.wishlist) + "` \u{2022} `"@ + signed_text(
        card.print as int,
    ) + "` \u{2022} **"@ + card.character.name + "** \u{2022} "@ + card.character.series
        + " \u{2022} "@ + stamp_text(card.character.last_update_ts) + "\n"@
}

/// Writes the decimal digits of `n` onto `out`.
fn push_decimal(out: &mut Vec<char>, n: u64)
    ensures
        final(out)@ == old(out)@ + decimal_text(n as nat),
    decreases n,
{
    if n >= 10 {
        push_decimal(out, n / 10);
    }
    let digit: char = (('0' as u8) + (n % 10) as u8) as char;
    out.push(digit);
    assert(out@ =~= old(out)@ + decimal_text(n as nat));
}

/// Writes the decimal digits of `n` onto `out`, after a minus sign where `n`
/// is negative.
fn push_signed(out: &mut Vec<char>, n: i64)
    ensures
        final(out)@ == old(out)@ + signed_text(n as int),
{
    if n < 0 {
        out.push('-');
        let size: u64 = (0 - n as i128) as u64;
        push_decimal(out, size);
        assert(out@ =~= old(out)@ + signed_text(n as int));
    } else {
        push_decimal(out, n as u64);
    }
}

fn push_text(out: &mut Vec<char>, text: &str)
    ensures
        final(out)@ == old(out)@ + text@,
{
    append_chars(out, &chars_of(text));
}

fn push_wishlist(out: &mut Vec<char>, wishlist: Option<u32>)
    ensures
        final(out)@ == old(out)@ + wishlist_text(wishlist),
{
    match wishlist {
        Some(n) => {
            let mut digits: Vec<char> = Vec::new();
            push_decimal(&mut digits, n as u64);
            assert(digits@ =~= decimal_text(n as nat));
            while digits.len() < 5
                invariant
                    padded_right(digits@, 5) == padded_right(decimal_text(n as nat), 5),
                decreases 5 - digits.len(),
            {
                digits.push(' ');
            }
            append_chars(out, &digits);
        },
        None => {
            push_text(out, "None ");
        },
    }
}

fn push_stamp(out: &mut Vec<char>, ts: i64)
    ensures
        final(out)@ == old(out)@ + stamp_text(ts),
{
    if ts == 0 {
        push_text(out, "`Never`");
    } else {
        push_text(out, "<t:");
        push_signed(out, ts);
        push_text(out, ":R>");
        assert(out@ =~= old(out)@ + stamp_text(ts));
    }
}

/// Writes the line that tells a user about one card.
pub fn format_card_line(card: &DroppedCard) -> (line: String)
    ensures
        line@ == card_line(card@),
{
    let mut out: Vec<char> = Vec::new();
    push_text(&mut out, ":heart: `");
    push_wishlist(&mut out, card.character.wishlist);
    push_text(&mut out, "` \u{2022} `");
    push_signed(&mut out, card.print as i64);
    push_text(&mut out, "` \u{2022} **");
    push_text(&mut out, card.character.name.as_str());
    push_text(&mut out, "** \u{2022} ");
    push_text(&mut out, card.character.series.as_str());
    push_text(&mut out, " \u{2022} ");
    push_stamp(&mut out, card.character.last_update_ts);
    push_text(&mut out, "\n");
    assert(out@ =~= card_line(card@));
    string_of(&out)
}

} // verus!
