//! Writing characters to the store: a record replaces the one that carries
//! its name and series, or is added where there is none, and every record
//! written is stamped with the time of writing.

use vstd::prelude::*;
use crate::records::{characters_view, Character, CharacterView};

verus! {

/// What is done with one record.
#[derive(Debug, Clone, PartialEq, Eq)]
pub enum WriteAction {
    /// Put the record in the place of the one with its name and series.
    Replace(Character),
    /// Add the record.
    Insert(Character),
}

/// What is done with the records of one listing.
#[derive(Debug, Clone, PartialEq, Eq)]
pub struct WritePlan {
    /// The records to replace, each by its name and series.
    pub replacements: Vec<Character>,
    /// The records to add, in one step.
    pub insertions: Vec<Character>,
}

/// A write as plain values.
pub ghost enum WriteActionView {
    Replace(CharacterView),
    Insert(CharacterView),
}

impl View for WriteAction {
    type V = WriteActionView;

    open spec fn view(&self) -> WriteActionView {
        match *self {
            WriteAction::Replace(c) => WriteActionView::Replace(c@),
            WriteAction::Insert(c) => WriteActionView::Insert(c@),
        }
    }
}

/// The time stamp for a clock that reads `now` seconds since the epoch.
pub open spec fn stamp_of(now: u64) -> i64 {
    now as i64
}

/// The record `c` as written at `now`.
pub open spec fn stamped(c: CharacterView, now: u64) -> CharacterView {
    CharacterView { last_update_ts: stamp_of(now), ..c }
}

/// A record that the store knows already is replaced; any other is added.
pub open spec fn write_for(c: CharacterView, known: bool, now: u64) -> WriteActionView {
    if known {
        WriteActionView::Replace(stamped(c, now))
    } else {
        WriteActionView::Insert(stamped(c, now))
    }
}

/// Records, each with whether the store knows it, as plain values.
pub open spec fn entries_view(v: Seq<(Character, bool)>) -> Seq<(CharacterView, bool)> {
    v.map_values(|e: (Character, bool)| (e.0@, e.1))
}

/// Of the first `upto` entries, those that the store knows, or those that it
/// does not, stamped and in order.
pub open spec fn stamped_where(
    entries: Seq<(CharacterView, bool)>,
    known: bool,
    now: u64,
    upto: int,
) -> Seq<CharacterView>
    decreases upto,
{
    if upto <= 0 {
        Seq::empty()
    } else {
        let before = stamped_where(entries, known, now, upto - 1);
        if entries[upto - 1].1 == known {
            before.push(stamped(entries[upto - 1].0, now))
        } else {
            before
        }
    }
}

/// Stamps a record with the time of writing.
pub fn stamp(card: Character, now: u64) -> (out: Character)
    ensures
        out@ == stamped(card@, now),
{
    let mut out = card;
    out.last_update_ts = #[verifier::truncate]
    (now as i64);
    out
}

/// Decides how one record is written: `known` tells whether the store holds
/// a record with its name and series.
pub fn plan_write(card: Character, known: bool, now: u64) -> (action: WriteAction)
    ensures
        action@ == write_for(card@, known, now),
{
    if known {
        WriteAction::Replace(stamp(card, now))
    } else {
        WriteAction::Insert(stamp(card, now))
    }
}

/// Decides how the records of a listing are written. Each entry pairs a
/// record with whether the store knows it. Known records are replaced one by
/// one; the others are added together.
pub fn plan_writes(entries: Vec<(Character, bool)>, now: u64) -> (plan: WritePlan)
    ensures
        characters_view(plan.replacements@) == stamped_where(
            entries_view(entries@),
            true,
            now,
            entries.len() as int,
        ),
        characters_view(plan.insertions@) == stamped_where(
            entries_view(entries@),
            false,
            now,
            entries.len() as int,
        ),
{
    let mut replacements: Vec<Character> = Vec::new();
    let mut insertions: Vec<Character> = Vec::new();
    let ghost all = entries_view(entries@);
    let n = entries.len();
    let mut i: usize = 0;
    assert(characters_view(replacements@) =~= Seq::<CharacterView>::empty());
    assert(characters_view(insertions@) =~= Seq::<CharacterView>::empty());
    while i < n
        invariant
            i <= n,
            n == entries.len(),
            all == entries_view(entries@),
            characters_view(replacements@) == stamped_where(all, true, now, i as int),
            characters_view(insertions@) == stamped_where(all, false, now, i as int),
        decreases n - i,
    {
        assert(all[i as int] == (entries@[i as int].0@, entries@[i as int].1));
        let card = stamp(entries[i].0.duplicate(), now);
        if entries[i].1 {
            let ghost before = characters_view(replacements@);
            replacements.push(card);
            assert(characters_view(replacements@) =~= before.push(card@));
        } else {
            let ghost before = characters_view(insertions@);
            insertions.push(card);
            assert(characters_view(insertions@) =~= before.push(card@));
        }
        i += 1;
    }
    WritePlan { replacements, insertions }
}

} // verus!
