//! Pictures as plain pixels, and the cutting of a drop image into the text
//! fields of its cards.
//!
//! A bitmap holds four bytes per pixel (red, green, blue, alpha), row by row
//! from the upper left corner.

use vstd::prelude::*;
use crate::geometry::{
    card_slots, name_field, name_rect, series_field, series_rect, slot_rect, spec_slot_count, Rect,
    CARD_PITCH, FIELD_MARGIN,
};

verus! {

/// A picture.
pub struct Bitmap {
    width: u32,
    height: u32,
    data: Vec<u8>,
}

/// A picture as plain values.
pub ghost struct BitmapView {
    pub width: nat,
    pub height: nat,
    pub data: Seq<u8>,
}

/// The two text fields of one card, each with its border.
pub struct CardFields {
    /// The slot of the card, counted from zero.
    pub slot: u32,
    pub name: Bitmap,
    pub series: Bitmap,
}

/// Where the byte of channel `c` of the pixel at (`x`, `y`) lies in a
/// picture `width` pixels wide.
pub open spec fn flat(width: int, x: int, y: int, c: int) -> int {
    4 * (y * width + x) + c
}

/// The column of the pixel that byte `k` belongs to.
pub open spec fn column_of(width: int, k: int) -> int {
    (k / 4) % width
}

/// The row of the pixel that byte `k` belongs to.
pub open spec fn row_of(width: int, k: int) -> int {
    (k / 4) / width
}

/// The smaller of two numbers.
pub open spec fn min_int(a: int, b: int) -> int {
    if a <= b {
        a
    } else {
        b
    }
}

/// The part of `rect` that lies within a picture of the given size: the
/// corner is moved onto the picture, then the size is cut down to what is
/// left of it.
pub open spec fn clamped(rect: Rect, width: nat, height: nat) -> (int, int, int, int) {
    let x = min_int(rect.x as int, width as int);
    let y = min_int(rect.y as int, height as int);
    (x, y, min_int(rect.width as int, width - x), min_int(rect.height as int, height - y))
}

/// Byte `k` of the cut-out of `img` that begins at (`x`, `y`) and is `w`
/// pixels wide.
pub open spec fn cropped_byte(img: BitmapView, x: int, y: int, w: int, k: int) -> u8 {
    img.data[flat(img.width as int, x + column_of(w, k), y + row_of(w, k), k % 4)]
}

/// The cut-out of `img` that `rect` bounds, as far as it lies within `img`.
pub open spec fn cropped(img: BitmapView, rect: Rect) -> BitmapView {
    let (x, y, w, h) = clamped(rect, img.width, img.height);
    BitmapView {
        width: w as nat,
        height: h as nat,
        data: Seq::new((4 * w * h) as nat, |k: int| cropped_byte(img, x, y, w, k)),
    }
}

/// Byte `k` of `img` with a white border `margin` pixels wide.
pub open spec fn padded_byte(img: BitmapView, margin: int, k: int) -> u8 {
    let w = img.width + 2 * margin;
    let x = column_of(w, k);
    let y = row_of(w, k);
    if margin <= x < margin + img.width && margin <= y < margin + img.height {
        img.data[flat(img.width as int, x - margin, y - margin, k % 4)]
    } else {
        255u8
    }
}

/// `img` with a white border `margin` pixels wide on all four sides.
pub open spec fn padded(img: BitmapView, margin: nat) -> BitmapView {
    let w = img.width + 2 * margin;
    let h = img.height + 2 * margin;
    BitmapView {
        width: w,
        height: h,
        data: Seq::new((4 * w * h) as nat, |k: int| padded_byte(img, margin as int, k)),
    }
}

/// The size of `img` with a border of `margin` pixels can be held.
pub open spec fn can_pad(img: BitmapView, margin: nat) -> bool {
    &&& img.width + 2 * margin <= u32::MAX
    &&& img.height + 2 * margin <= u32::MAX
    &&& 4 * (img.width + 2 * margin) * (img.height + 2 * margin) <= usize::MAX
}

/// The text field `field` of the card in slot `slot` of `img`, with its
/// border.
pub open spec fn field_of(img: BitmapView, slot: nat, field: Rect) -> BitmapView {
    padded(cropped(cropped(img, slot_rect(slot)), field), FIELD_MARGIN as nat)
}

/// The byte at `flat(width, x, y, c)` belongs to the pixel at (`x`, `y`) and
/// to channel `c`.
pub proof fn lemma_flat(width: int, x: int, y: int, c: int)
    requires
        0 <= x < width,
        0 <= y,
        0 <= c < 4,
    ensures
        column_of(width, flat(width, x, y, c)) == x,
        row_of(width, flat(width, x, y, c)) == y,
        flat(width, x, y, c) % 4 == c,
        flat(width, x, y, c) >= 0,
{
    let p = y * width + x;
    assert(p >= 0) by (nonlinear_arith)
        requires
            p == y * width + x,
            0 <= x,
            0 <= y,
            0 < width,
    ;
    let k = 4 * p + c;
    assert(k / 4 == p && k % 4 == c) by {
        vstd::arithmetic::div_mod::lemma_fundamental_div_mod_converse(k, 4, p, c);
    }
    assert(p / width == y && p % width == x) by {
        vstd::arithmetic::div_mod::lemma_fundamental_div_mod_converse(p, width, y, x);
    }
}

impl View for Bitmap {
    type V = BitmapView;

    closed spec fn view(&self) -> BitmapView {
        BitmapView { width: self.width as nat, height: self.height as nat, data: self.data@ }
    }
}

impl Bitmap {
    /// A bitmap holds four bytes for each of its pixels.
    #[verifier::type_invariant]
    closed spec fn well_formed(&self) -> bool {
        self.data@.len() == 4 * self.width * self.height
    }

    /// What every bitmap looks like from outside.
    pub open spec fn is_sized(v: BitmapView) -> bool {
        v.width <= u32::MAX && v.height <= u32::MAX && v.data.len() == 4 * v.width * v.height
    }

    /// The bitmap of the given size over the given bytes, where there are
    /// four bytes per pixel.
    pub fn from_raw(width: u32, height: u32, data: Vec<u8>) -> (made: Option<Bitmap>)
        ensures
            made is Some <==> data.len() == 4 * width * height,
            made is Some ==> made->0@ == (BitmapView {
                width: width as nat,
                height: height as nat,
                data: data@,
            }),
    {
        assert(4 * (width as int) * (height as int) <= 4 * 0xffff_ffff * 0xffff_ffff)
            by (nonlinear_arith)
            requires
                0 <= width <= 0xffff_ffff,
                0 <= height <= 0xffff_ffff,
        ;
        let want: u128 = 4u128 * (width as u128) * (height as u128);
        if data.len() as u128 == want {
            Some(Bitmap { width, height, data })
        } else {
            None
        }
    }

    /// How many pixels wide the bitmap is.
    pub fn width(&self) -> (w: u32)
        ensures
            w == self@.width,
    {
        self.width
    }

    /// How many pixels high the bitmap is.
    pub fn height(&self) -> (h: u32)
        ensures
            h == self@.height,
    {
        self.height
    }

    /// The bytes of the bitmap, four per pixel, row by row.
    pub fn bytes(&self) -> (data: &Vec<u8>)
        ensures
            data@ == self@.data,
            Self::is_sized(self@),
    {
        proof {
            use_type_invariant(self);
        }
        &self.data
    }

    /// Takes the bitmap apart into width, height and bytes.
    pub fn into_raw(self) -> (parts: (u32, u32, Vec<u8>))
        ensures
            parts.0 == self@.width,
            parts.1 == self@.height,
            parts.2@ == self@.data,
            parts.2.len() == 4 * parts.0 * parts.1,
    {
        proof {
            use_type_invariant(&self);
        }
        (self.width, self.height, self.data)
    }

    /// Where the pixel at (`x`, `y`) begins among the bytes.
    fn offset(&self, x: u32, y: u32) -> (at: usize)
        requires
            x < self@.width,
            y < self@.height,
        ensures
            at == flat(self@.width as int, x as int, y as int, 0),
            at + 3 < self@.data.len(),
    {
        proof {
            use_type_invariant(self);
            let wi = self.width as int;
            let hi = self.height as int;
            let xi = x as int;
            let yi = y as int;
            assert(0 <= yi * wi && yi * wi + xi < wi * hi) by (nonlinear_arith)
                requires
                    0 <= xi < wi,
                    0 <= yi < hi,
            ;
            assert(4 * (wi * hi) == 4 * wi * hi) by (nonlinear_arith);
            assert(self.data@.len() == 4 * (wi * hi));
            assert(4 * (yi * wi + xi) + 3 < 4 * (wi * hi));
        }
        let across: usize = x as usize;
        let down: usize = y as usize;
        let wide: usize = self.width as usize;
        assert(down * wide == y * self.width) by (nonlinear_arith)
            requires
                down == y,
                wide == self.width,
        ;
        let held: usize = self.data.len();
        assert(4 * (down * wide + across) + 3 < held);
        let row: usize = down * wide;
        4 * (row + across)
    }

    /// Cuts out the part of the bitmap that `rect` bounds. A rectangle that
    /// reaches beyond the bitmap is cut down to what lies within.
    pub fn crop(&self, rect: Rect) -> (out: Bitmap)
        ensures
            out@ == cropped(self@, rect),
    {
        proof {
            use_type_invariant(self);
        }
        let x0: u32 = if rect.x < self.width {
            rect.x
        } else {
            self.width
        };
        let y0: u32 = if rect.y < self.height {
            rect.y
        } else {
            self.height
        };
        let w: u32 = if rect.width < self.width - x0 {
            rect.width
        } else {
            self.width - x0
        };
        let h: u32 = if rect.height < self.height - y0 {
            rect.height
        } else {
            self.height - y0
        };
        assert(clamped(rect, self@.width, self@.height) == (x0 as int, y0 as int, w as int, h as int));
        let ghost img = self@;
        let mut data: Vec<u8> = Vec::new();
        let mut y: u32 = 0;
        while y < h
            invariant
                y <= h,
                img == self@,
                x0 + w <= img.width,
                y0 + h <= img.height,
                data.len() == 4 * (y as int * w as int),
                forall|k: int|
                    0 <= k < data.len() ==> #[trigger] data@[k] == cropped_byte(
                        img,
                        x0 as int,
                        y0 as int,
                        w as int,
                        k,
                    ),
            decreases h - y,
        {
            let mut x: u32 = 0;
            while x < w
                invariant
                    x <= w,
                    y < h,
                    img == self@,
                    x0 + w <= img.width,
                    y0 + h <= img.height,
                    data.len() == 4 * (y as int * w as int + x as int),
                    forall|k: int|
                        0 <= k < data.len() ==> #[trigger] data@[k] == cropped_byte(
                            img,
                            x0 as int,
                            y0 as int,
                            w as int,
                            k,
                        ),
                decreases w - x,
            {
                let at = self.offset(x0 + x, y0 + y);
                proof {
                    lemma_flat(w as int, x as int, y as int, 0);
                    lemma_flat(w as int, x as int, y as int, 1);
                    lemma_flat(w as int, x as int, y as int, 2);
                    lemma_flat(w as int, x as int, y as int, 3);
                }
                data.push(self.data[at]);
                data.push(self.data[at + 1]);
                data.push(self.data[at + 2]);
                data.push(self.data[at + 3]);
                x += 1;
            }
            proof {
                assert(y as int * w as int + w as int == (y as int + 1) * w as int)
                    by (nonlinear_arith);
            }
            y += 1;
        }
        proof {
            assert(4 * (h as int * w as int) == 4 * w as int * h as int) by (nonlinear_arith);
            assert(data@ =~= cropped(img, rect).data);
        }
        Bitmap { width: w, height: h, data }
    }

    /// Lays a white border `margin` pixels wide around the bitmap, where
    /// the larger picture can be held.
    pub fn with_white_padding(&self, margin: u32) -> (out: Option<Bitmap>)
        ensures
            out is Some <==> can_pad(self@, margin as nat),
            out is Some ==> out->0@ == padded(self@, margin as nat),
    {
        proof {
            use_type_invariant(self);
        }
        let wide: u64 = self.width as u64 + 2 * (margin as u64);
        let high: u64 = self.height as u64 + 2 * (margin as u64);
        if wide > u32::MAX as u64 || high > u32::MAX as u64 {
            return None;
        }
        assert(4 * (wide as int) * (high as int) <= 4 * 0xffff_ffff * 0xffff_ffff)
            by (nonlinear_arith)
            requires
                0 <= wide <= 0xffff_ffff,
                0 <= high <= 0xffff_ffff,
        ;
        let total: u128 = 4u128 * (wide as u128) * (high as u128);
        if total > usize::MAX as u128 {
            return None;
        }
        let w: u32 = wide as u32;
        let h: u32 = high as u32;
        let ghost img = self@;
        let mut data: Vec<u8> = Vec::new();
        let mut y: u32 = 0;
        while y < h
            invariant
                y <= h,
                img == self@,
                w == img.width + 2 * margin,
                h == img.height + 2 * margin,
                data.len() == 4 * (y as int * w as int),
                forall|k: int|
                    0 <= k < data.len() ==> #[trigger] data@[k] == padded_byte(
                        img,
                        margin as int,
                        k,
                    ),
            decreases h - y,
        {
            let mut x: u32 = 0;
            while x < w
                invariant
                    x <= w,
                    y < h,
                    img == self@,
                    w == img.width + 2 * margin,
                    h == img.height + 2 * margin,
                    data.len() == 4 * (y as int * w as int + x as int),
                    forall|k: int|
                        0 <= k < data.len() ==> #[trigger] data@[k] == padded_byte(
                            img,
                            margin as int,
                            k,
                        ),
                decreases w - x,
            {
                proof {
                    lemma_flat(w as int, x as int, y as int, 0);
                    lemma_flat(w as int, x as int, y as int, 1);
                    lemma_flat(w as int, x as int, y as int, 2);
                    lemma_flat(w as int, x as int, y as int, 3);
                }
                if margin <= x && x - margin < self.width && margin <= y && y - margin
                    < self.height {
                    let at = self.offset(x - margin, y - margin);
                    data.push(self.data[at]);
                    data.push(self.data[at + 1]);
                    data.push(self.data[at + 2]);
                    data.push(self.data[at + 3]);
                } else {
                    data.push(255);
                    data.push(255);
                    data.push(255);
                    data.push(255);
                }
                x += 1;
            }
            proof {
                assert(y as int * w as int + w as int == (y as int + 1) * w as int)
                    by (nonlinear_arith);
            }
            y += 1;
        }
        proof {
            assert(4 * (h as int * w as int) == 4 * w as int * h as int) by (nonlinear_arith);
            assert(data@ =~= padded(img, margin as nat).data);
        }
        Some(Bitmap { width: w, height: h, data })
    }
}

/// A field cut from a card is small enough for its border.
proof fn lemma_field_can_pad(img: BitmapView, field: Rect)
    requires
        field.width <= 184,
        field.height <= 50,
    ensures
        can_pad(cropped(img, field), FIELD_MARGIN as nat),
{
    let c = cropped(img, field);
    assert(c.width <= 184 && c.height <= 50);
    assert(4 * (c.width + 14) * (c.height + 14) <= 4 * 198 * 64) by (nonlinear_arith)
        requires
            c.width <= 184,
            c.height <= 50,
    ;
}

/// Cuts one text field out of a card and lays its border around it.
fn cut_field(card: &Bitmap, field: Rect) -> (out: Bitmap)
    requires
        field.width <= 184,
        field.height <= 50,
    ensures
        out@ == padded(cropped(card@, field), FIELD_MARGIN as nat),
{
    let cut = card.crop(field);
    proof {
        lemma_field_can_pad(card@, field);
    }
    cut.with_white_padding(FIELD_MARGIN).unwrap()
}

/// The fields of the cards as plain values: slot, name, series.
pub open spec fn fields_view(v: Seq<CardFields>) -> Seq<(nat, BitmapView, BitmapView)> {
    v.map_values(|f: CardFields| (f.slot as nat, f.name@, f.series@))
}

/// The text fields of the cards of `img`, from left to right.
pub open spec fn segmented(img: BitmapView) -> Seq<(nat, BitmapView, BitmapView)> {
    Seq::new(
        spec_slot_count(img.width, CARD_PITCH as nat),
        |i: int| (i as nat, field_of(img, i as nat, name_rect()), field_of(img, i as nat, series_rect())),
    )
}

/// Cuts a drop image into the name and series fields of its cards. An image
/// narrower than one card holds no card.
pub fn segment(image: &Bitmap) -> (fields: Vec<CardFields>)
    ensures
        fields_view(fields@) == segmented(image@),
{
    let slots = card_slots(image.width());
    let mut fields: Vec<CardFields> = Vec::new();
    let mut i: usize = 0;
    while i < slots.len()
        invariant
            i <= slots.len(),
            slots.len() == spec_slot_count(image@.width, CARD_PITCH as nat),
            slots.len() <= u32::MAX,
            forall|j: int| 0 <= j < slots.len() ==> #[trigger] slots@[j] == slot_rect(j as nat),
            fields.len() == i,
            forall|j: int|
                0 <= j < i ==> (#[trigger] fields@[j]).slot == j && fields@[j].name@ == field_of(
                    image@,
                    j as nat,
                    name_rect(),
                ) && fields@[j].series@ == field_of(image@, j as nat, series_rect()),
        decreases slots.len() - i,
    {
        let card = image.crop(slots[i]);
        let name = cut_field(&card, name_field());
        let series = cut_field(&card, series_field());
        fields.push(CardFields { slot: i as u32, name, series });
        i += 1;
    }
    assert(fields_view(fields@) =~= segmented(image@));
    fields
}

} // verus!
