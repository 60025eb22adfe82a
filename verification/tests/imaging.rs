use image::{DynamicImage, ImageFormat, RgbaImage};
use std::io::Cursor;
use swordfish::aggregate::PipelineError;
use swordfish::codec::{decode_png, grayscale};
use swordfish::geometry::{card_slots, name_field, series_field, slot_count, Rect};
use swordfish::imaging::{segment, Bitmap};

/// A picture whose pixel at (x, y) holds x, y, x + y and 255.
fn gradient(width: u32, height: u32) -> Bitmap {
    let mut data = Vec::new();
    for y in 0..height {
        for x in 0..width {
            data.extend_from_slice(&[x as u8, y as u8, (x + y) as u8, 255]);
        }
    }
    Bitmap::from_raw(width, height, data).unwrap()
}

fn pixel(b: &Bitmap, x: u32, y: u32) -> [u8; 4] {
    let at = 4 * (y * b.width() + x) as usize;
    let d = b.bytes();
    [d[at], d[at + 1], d[at + 2], d[at + 3]]
}

#[test]
fn slots_are_counted_by_whole_pitches() {
    assert_eq!(slot_count(0, 274), 0);
    assert_eq!(slot_count(273, 274), 0);
    assert_eq!(slot_count(274, 274), 1);
    assert_eq!(slot_count(836, 274), 3);
    assert_eq!(slot_count(1096, 274), 4);
    assert_eq!(slot_count(u32::MAX, 1), u32::MAX);
    assert_eq!(slot_count(10, 3), 3);
}

#[test]
fn slots_lie_side_by_side() {
    assert_eq!(card_slots(273), vec![]);
    assert_eq!(
        card_slots(836),
        vec![
            Rect { x: 29, y: 34, width: 228, height: 353 },
            Rect { x: 303, y: 34, width: 228, height: 353 },
            Rect { x: 577, y: 34, width: 228, height: 353 },
        ]
    );
    assert_eq!(name_field(), Rect { x: 22, y: 28, width: 180, height: 42 });
    assert_eq!(series_field(), Rect { x: 22, y: 278, width: 184, height: 50 });
}

#[test]
fn bitmap_needs_four_bytes_per_pixel() {
    assert!(Bitmap::from_raw(2, 2, vec![0; 16]).is_some());
    assert!(Bitmap::from_raw(2, 2, vec![0; 15]).is_none());
    assert!(Bitmap::from_raw(2, 2, vec![0; 17]).is_none());
    assert!(Bitmap::from_raw(0, 5, Vec::new()).is_some());
    let b = gradient(3, 2);
    assert_eq!((b.width(), b.height(), b.bytes().len()), (3, 2, 24));
    assert_eq!(gradient(3, 2).into_raw().2.len(), 24);
}

#[test]
fn crop_cuts_the_rectangle_out() {
    let b = gradient(10, 8);
    let c = b.crop(Rect { x: 2, y: 3, width: 4, height: 2 });
    assert_eq!((c.width(), c.height()), (4, 2));
    for y in 0..2 {
        for x in 0..4 {
            assert_eq!(pixel(&c, x, y), pixel(&b, x + 2, y + 3));
        }
    }
}

#[test]
fn crop_is_cut_down_to_the_picture() {
    let b = gradient(10, 8);
    let c = b.crop(Rect { x: 7, y: 6, width: 100, height: 100 });
    assert_eq!((c.width(), c.height()), (3, 2));
    assert_eq!(pixel(&c, 2, 1), pixel(&b, 9, 7));
    let outside = b.crop(Rect { x: 50, y: 50, width: 5, height: 5 });
    assert_eq!((outside.width(), outside.height(), outside.bytes().len()), (0, 0, 0));
    let whole = b.crop(Rect { x: 0, y: 0, width: u32::MAX, height: u32::MAX });
    assert_eq!(whole.bytes(), b.bytes());
}

#[test]
fn padding_lays_a_white_border() {
    let b = gradient(3, 2);
    let p = b.with_white_padding(7).unwrap();
    assert_eq!((p.width(), p.height()), (17, 16));
    for y in 0..16 {
        for x in 0..17 {
            let inside = (7..10).contains(&x) && (7..9).contains(&y);
            if inside {
                assert_eq!(pixel(&p, x, y), pixel(&b, x - 7, y - 7));
            } else {
                assert_eq!(pixel(&p, x, y), [255, 255, 255, 255]);
            }
        }
    }
    assert_eq!(b.with_white_padding(0).unwrap().bytes(), b.bytes());
    assert!(b.with_white_padding(u32::MAX).is_none());
}

#[test]
fn segment_cuts_both_fields_of_every_card() {
    let image = gradient(600, 400);
    let fields = segment(&image);
    assert_eq!(fields.len(), 2);
    for (i, f) in fields.iter().enumerate() {
        assert_eq!(f.slot as usize, i);
        assert_eq!((f.name.width(), f.name.height()), (194, 56));
        assert_eq!((f.series.width(), f.series.height()), (198, 64));
        let left = 29 + 274 * i as u32;
        assert_eq!(pixel(&f.name, 7, 7), pixel(&image, left + 22, 34 + 28));
        assert_eq!(pixel(&f.name, 186, 48), pixel(&image, left + 22 + 179, 34 + 28 + 41));
        assert_eq!(pixel(&f.series, 7, 7), pixel(&image, left + 22, 34 + 278));
        assert_eq!(pixel(&f.name, 0, 0), [255, 255, 255, 255]);
        assert_eq!(pixel(&f.series, 197, 63), [255, 255, 255, 255]);
    }
}

#[test]
fn narrow_or_low_pictures_give_small_fields() {
    assert_eq!(segment(&gradient(273, 400)).len(), 0);
    let low = segment(&gradient(274, 100));
    assert_eq!(low.len(), 1);
    assert_eq!((low[0].name.width(), low[0].name.height()), (194, 52));
    assert_eq!((low[0].series.width(), low[0].series.height()), (198, 14));
}

fn png_of(width: u32, height: u32, data: Vec<u8>) -> Vec<u8> {
    let picture = DynamicImage::ImageRgba8(RgbaImage::from_raw(width, height, data).unwrap());
    let mut bytes = Vec::new();
    picture.write_to(&mut Cursor::new(&mut bytes), ImageFormat::Png).unwrap();
    bytes
}

#[test]
fn decodes_png_files() {
    let data = vec![255, 0, 0, 255, 0, 255, 0, 128, 0, 0, 255, 0, 10, 20, 30, 40, 1, 2, 3, 4, 5, 6, 7, 8];
    let bitmap = decode_png(&png_of(3, 2, data.clone())).unwrap();
    assert_eq!((bitmap.width(), bitmap.height()), (3, 2));
    assert_eq!(bitmap.bytes(), &data);
}

#[test]
fn refuses_what_is_no_png_file() {
    assert!(matches!(decode_png(&Vec::new()), Err(PipelineError::Decode(_))));
    assert!(matches!(decode_png(&b"GIF89a".to_vec()), Err(PipelineError::Decode(_))));
    let mut cut = png_of(3, 2, vec![7; 24]);
    cut.truncate(cut.len() / 2);
    assert!(matches!(decode_png(&cut), Err(PipelineError::Decode(_))));
}

#[test]
fn grey_pictures_have_equal_colours() {
    let data = vec![255, 0, 0, 255, 0, 255, 0, 128, 0, 0, 255, 7, 200, 200, 200, 255];
    let bitmap = Bitmap::from_raw(2, 2, data.clone()).unwrap();
    let grey = grayscale(&bitmap);
    assert_eq!((grey.width(), grey.height()), (2, 2));
    let want = DynamicImage::ImageRgba8(RgbaImage::from_raw(2, 2, data.clone()).unwrap())
        .grayscale()
        .into_rgba8()
        .into_raw();
    assert_eq!(grey.bytes(), &want);
    assert_ne!(grey.bytes(), &data);
    for y in 0..2 {
        for x in 0..2 {
            let [r, g, b, a] = pixel(&grey, x, y);
            assert!(r == g && g == b);
            assert_eq!(a, pixel(&bitmap, x, y)[3]);
        }
    }
}
