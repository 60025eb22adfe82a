//! Fixed layout of a drop image: where each card sits and where its two text
//! fields are found.

use vstd::prelude::*;

verus! {

/// A rectangle of pixels: its left upper corner and its size.
#[derive(Clone, Copy, Debug, PartialEq, Eq, Structural)]
pub struct Rect {
    pub x: u32,
    pub y: u32,
    pub width: u32,
    pub height: u32,
}

/// How far the first card is from the left edge of the image.
pub const FIRST_CARD_LEFT: u32 = 29;

/// How far the cards are from the upper edge of the image.
pub const CARD_TOP: u32 = 34;

/// How wide a card is.
pub const CARD_WIDTH: u32 = 228;

/// How high a card is.
pub const CARD_HEIGHT: u32 = 353;

/// The space between two cards.
pub const CARD_GAP: u32 = 46;

/// From the left edge of one card to the left edge of the next: the width
/// of a card and the gap behind it.
pub const CARD_PITCH: u32 = 274;

/// The border of background colour that is laid around a field.
pub const FIELD_MARGIN: u32 = 7;

/// Number of whole card slots of width `pitch` that fit into `width` pixels.
pub open spec fn spec_slot_count(width: nat, pitch: nat) -> nat
    recommends
        pitch > 0,
{
    width / pitch
}

/// The slot of card `index`, counted from zero.
pub open spec fn slot_rect(index: nat) -> Rect
    recommends
        FIRST_CARD_LEFT + CARD_PITCH * index <= u32::MAX,
{
    Rect {
        x: (FIRST_CARD_LEFT + CARD_PITCH * index) as u32,
        y: CARD_TOP,
        width: CARD_WIDTH,
        height: CARD_HEIGHT,
    }
}

/// Where the name stands on a card.
pub open spec fn name_rect() -> Rect {
    Rect { x: 22, y: 28, width: 180, height: 42 }
}

/// Where the series stands on a card.
pub open spec fn series_rect() -> Rect {
    Rect { x: 22, y: 278, width: 184, height: 50 }
}

/// Counts the card slots in an image `width` pixels wide.
pub fn slot_count(width: u32, pitch: u32) -> (count: u32)
    requires
        pitch > 0,
    ensures
        count as nat == spec_slot_count(width as nat, pitch as nat),
        count as int * pitch as int <= width as int,
        (width as int) < (count as int + 1) * pitch as int,
        width < pitch ==> count == 0,
{
    let count: u32 = width / pitch;
    proof {
        vstd::arithmetic::div_mod::lemma_fundamental_div_mod(width as int, pitch as int);
        vstd::arithmetic::div_mod::lemma_mod_bound(width as int, pitch as int);
        assert(count as int * pitch as int == pitch as int * (width as int / pitch as int))
            by (nonlinear_arith)
            requires
                count as int == width as int / pitch as int,
        ;
        assert((count as int + 1) * pitch as int == count as int * pitch as int + pitch as int)
            by (nonlinear_arith);
        if width < pitch {
            vstd::arithmetic::div_mod::lemma_basic_div(width as int, pitch as int);
        }
    }
    count
}

/// The slots of the cards in an image `width` pixels wide, from left to
/// right. Each lies within the width of the image.
pub fn card_slots(width: u32) -> (slots: Vec<Rect>)
    ensures
        slots.len() == spec_slot_count(width as nat, CARD_PITCH as nat),
        forall|i: int| 0 <= i < slots.len() ==> #[trigger] slots@[i] == slot_rect(i as nat),
        forall|i: int|
            0 <= i < slots.len() ==> (#[trigger] slots@[i]).x + slots@[i].width <= width,
{
    let count = slot_count(width, CARD_PITCH);
    let mut slots: Vec<Rect> = Vec::new();
    let mut i: u32 = 0;
    while i < count
        invariant
            i <= count,
            count as int * CARD_PITCH as int <= width as int,
            slots.len() == i,
            forall|j: int| 0 <= j < i ==> #[trigger] slots@[j] == slot_rect(j as nat),
            forall|j: int| 0 <= j < i ==> (#[trigger] slots@[j]).x + slots@[j].width <= width,
        decreases count - i,
    {
        assert(CARD_PITCH * (i + 1) <= width) by (nonlinear_arith)
            requires
                i < count,
                count as int * CARD_PITCH as int <= width as int,
        ;
        let x: u32 = FIRST_CARD_LEFT + CARD_PITCH * i;
        slots.push(Rect { x, y: CARD_TOP, width: CARD_WIDTH, height: CARD_HEIGHT });
        i += 1;
    }
    slots
}

/// Where the name stands on a card.
pub fn name_field() -> (r: Rect)
    ensures
        r == name_rect(),
{
    Rect { x: 22, y: 28, width: 180, height: 42 }
}

/// Where the series stands on a card.
pub fn series_field() -> (r: Rect)
    ensures
        r == series_rect(),
{
    Rect { x: 22, y: 278, width: 184, height: 50 }
}

} // verus!
