use memeinator::compositor::{blend_byte, blit, get_byte, overlay, set_byte};
use memeinator::raster::{Color, Mask, Raster};

fn raster_filled(w: u32, h: u32, fill: u8) -> Raster {
    Raster { width: w, height: h, data: vec![fill; (w * h * 4) as usize] }
}

fn mask_filled(w: u32, h: u32, fill: u8) -> Mask {
    Mask { width: w, height: h, data: vec![fill; (w * h) as usize] }
}

#[test]
fn blend_transparent_keeps_base() {
    for b in [0u8, 1, 100, 255] {
        assert_eq!(blend_byte(b, 0, 200), b);
    }
}

#[test]
fn blend_opaque_takes_color() {
    for c in [0u8, 1, 100, 255] {
        assert_eq!(blend_byte(77, 255, c), c);
    }
}

#[test]
fn blend_half_coverage_truncates() {
    // ((255 - 128) * 100 + 128 * 200) / 255 = 38300 / 255 = 150 (truncated)
    assert_eq!(blend_byte(100, 128, 200), 150);
}

#[test]
fn overlay_all_zero_mask_changes_nothing() {
    let mut base = raster_filled(2, 2, 90);
    base.data[5] = 7;
    let before = base.data.clone();
    let mask = mask_filled(2, 2, 0);
    let color = Color { r: 1, g: 2, b: 3, a: 4 };
    overlay(&mut base, &mask, color, 0, 0);
    assert_eq!(base.data, before);
}

#[test]
fn overlay_all_opaque_mask_paints_color() {
    let mut base = raster_filled(3, 3, 90);
    let mask = mask_filled(2, 2, 255);
    let color = Color { r: 10, g: 20, b: 30, a: 40 };
    overlay(&mut base, &mask, color, 1, 1);
    for y in 0..3u32 {
        for x in 0..3u32 {
            let covered = (1..3).contains(&x) && (1..3).contains(&y);
            let expected = if covered { [10, 20, 30, 40] } else { [90, 90, 90, 90] };
            for ch in 0..4u32 {
                assert_eq!(get_byte(&base, x, y, ch), expected[ch as usize]);
            }
        }
    }
}

#[test]
fn overlay_clips_partially_outside() {
    let mut base = raster_filled(2, 2, 0);
    let mask = mask_filled(3, 3, 255);
    let color = Color { r: 255, g: 255, b: 255, a: 255 };
    overlay(&mut base, &mask, color, 1, 1);
    // only pixel (1, 1) is covered
    assert_eq!(get_byte(&base, 0, 0, 0), 0);
    assert_eq!(get_byte(&base, 1, 0, 0), 0);
    assert_eq!(get_byte(&base, 0, 1, 0), 0);
    assert_eq!(get_byte(&base, 1, 1, 0), 255);
}

#[test]
fn overlay_fully_outside_changes_nothing() {
    let mut base = raster_filled(2, 2, 33);
    let before = base.data.clone();
    let mask = mask_filled(4, 4, 255);
    let color = Color { r: 9, g: 9, b: 9, a: 9 };
    overlay(&mut base, &mask, color, 2, 0);
    assert_eq!(base.data, before);
    overlay(&mut base, &mask, color, 0, 2);
    assert_eq!(base.data, before);
    overlay(&mut base, &mask, color, 4_000_000_000, 4_000_000_000);
    assert_eq!(base.data, before);
}

#[test]
fn blit_copies_and_clips() {
    let mut base = raster_filled(2, 2, 5);
    let src = raster_filled(2, 2, 200);
    blit(&mut base, &src, 1, 0);
    assert_eq!(get_byte(&base, 0, 0, 0), 5);
    assert_eq!(get_byte(&base, 1, 0, 0), 200);
    assert_eq!(get_byte(&base, 0, 1, 2), 5);
    assert_eq!(get_byte(&base, 1, 1, 3), 200);
}

#[test]
fn set_and_get_byte_roundtrip() {
    let mut base = raster_filled(3, 2, 0);
    set_byte(&mut base, 2, 1, 3, 99);
    assert_eq!(get_byte(&base, 2, 1, 3), 99);
    assert_eq!(get_byte(&base, 2, 1, 2), 0);
    assert_eq!(get_byte(&base, 1, 1, 3), 0);
}

#[test]
fn new_filled_builds_expected_buffer() {
    let r = Raster::new_filled(3, 2, 17);
    assert_eq!(r.width, 3);
    assert_eq!(r.height, 2);
    assert_eq!(r.data, vec![17u8; 24]);
}
