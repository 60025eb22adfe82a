//! The records the library passes around: a character as the store knows it,
//! and a card as it was dropped.

use vstd::prelude::*;

verus! {

/// A character of a series, with what is known about it.
#[derive(Debug, Clone, PartialEq, Eq)]
pub struct Character {
    /// How many wishlists hold the character, where that is known.
    pub wishlist: Option<u32>,
    pub name: String,
    pub series: String,
    /// When the record was last written, in seconds since the epoch; zero
    /// for a record that never was.
    pub last_update_ts: i64,
}

/// A card of a drop: the character on it, and its print and edition.
#[derive(Debug, Clone, PartialEq, Eq)]
pub struct DroppedCard {
    pub character: Character,
    pub print: i32,
    pub edition: i32,
}

/// A character as plain values.
pub ghost struct CharacterView {
    pub wishlist: Option<u32>,
    pub name: Seq<char>,
    pub series: Seq<char>,
    pub last_update_ts: i64,
}

/// A dropped card as plain values.
pub ghost struct DroppedCardView {
    pub character: CharacterView,
    pub print: i32,
    pub edition: i32,
}

impl View for Character {
    type V = CharacterView;

    open spec fn view(&self) -> CharacterView {
        CharacterView {
            wishlist: self.wishlist,
            name: self.name@,
            series: self.series@,
            last_update_ts: self.last_update_ts,
        }
    }
}

impl View for DroppedCard {
    type V = DroppedCardView;

    open spec fn view(&self) -> DroppedCardView {
        DroppedCardView { character: self.character@, print: self.print, edition: self.edition }
    }
}

/// The characters of `v` as plain values.
pub open spec fn characters_view(v: Seq<Character>) -> Seq<CharacterView> {
    v.map_values(|c: Character| c@)
}

/// The cards of `v` as plain values.
pub open spec fn cards_view(v: Seq<DroppedCard>) -> Seq<DroppedCardView> {
    v.map_values(|c: DroppedCard| c@)
}

/// The record of a character that the store does not know.
pub open spec fn unknown_character(name: Seq<char>, series: Seq<char>) -> CharacterView {
    CharacterView { wishlist: None, name, series, last_update_ts: 0 }
}

/// The card that shows `character`; print and edition are not read yet and
/// stand at zero.
pub open spec fn card_showing(character: CharacterView) -> DroppedCardView {
    DroppedCardView { character, print: 0, edition: 0 }
}

impl Character {
    /// A record for a character that the store does not know.
    pub fn unknown(name: String, series: String) -> (c: Character)
        ensures
            c@ == unknown_character(name@, series@),
    {
        Character { wishlist: None, name, series, last_update_ts: 0 }
    }

    /// A copy of this record.
    pub fn duplicate(&self) -> (c: Character)
        ensures
            c@ == self@,
    {
        Character {
            wishlist: self.wishlist,
            name: self.name.clone(),
            series: self.series.clone(),
            last_update_ts: self.last_update_ts,
        }
    }
}

impl DroppedCard {
    /// The card that shows `character`.
    pub fn showing(character: Character) -> (card: DroppedCard)
        ensures
            card@ == card_showing(character@),
    {
        DroppedCard { character, print: 0, edition: 0 }
    }
}

} // verus!
