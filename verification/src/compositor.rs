//! Per-pixel alpha compositing of coverage masks onto RGBA rasters.
//!
//! A mask byte `m` is read as the coverage fraction `m / 255`. Each channel
//! is blended as `(1 - coverage) * base + coverage * color`, with channels
//! normalized to `[0, 1]`, and the result re-quantized to a byte by
//! truncation. Over the raw bytes that computation is exactly
//! `((255 - m) * base + m * color) / 255` with the division truncating,
//! which is how it is stated and implemented here. Pixels that fall outside
//! the destination raster are skipped silently.

use vstd::prelude::*;

use crate::raster::{Color, Mask, Raster};

verus! {

/// The blended byte for one channel: base value `b`, coverage byte `m`,
/// color byte `c`.
pub open spec fn blend_channel(b: int, m: u8, c: u8) -> int {
    ((255 - m) * b + m * c) / 255
}

/// Blending with zero coverage returns the base value unchanged.
pub proof fn lemma_blend_transparent(b: int, c: u8)
    ensures
        blend_channel(b, 0, c) == b,
{
    assert((255 * b + 0 * c) / 255 == b) by (nonlinear_arith);
}

/// Blending with full coverage returns the color byte exactly.
pub proof fn lemma_blend_opaque(b: int, c: u8)
    ensures
        blend_channel(b, 255, c) == c,
{
    assert((0 * b + 255 * c) / 255 == c) by (nonlinear_arith);
}

/// The blended value of a byte is always a byte.
pub proof fn lemma_blend_in_range(b: int, m: u8, c: u8)
    requires
        0 <= b <= 255,
    ensures
        0 <= blend_channel(b, m, c) <= 255,
{
    assert(0 <= ((255 - m) * b + m * c) / 255 <= 255) by (nonlinear_arith)
        requires
            0 <= b <= 255,
    ;
}

/// Executable blend of one channel.
pub fn blend_byte(b: u8, m: u8, c: u8) -> (r: u8)
    ensures
        r == blend_channel(b as int, m, c),
{
    proof {
        lemma_blend_in_range(b as int, m, c);
    }
    let num: u32 = (255 - m as u32) * (b as u32) + (m as u32) * (c as u32);
    (num / 255) as u8
}

/// True when base pixel `(x, y)` is covered by a mask of `mask`'s dimensions
/// laid at origin `(ox, oy)`.
pub open spec fn covered(mask: Mask, ox: int, oy: int, x: int, y: int) -> bool {
    ox <= x < ox + mask.width && oy <= y < oy + mask.height
}

/// The byte of channel `ch` at `(x, y)` after overlaying `mask` with `color`
/// at origin `(ox, oy)`: blended where covered, unchanged elsewhere.
pub open spec fn overlaid_byte(
    base: Raster,
    mask: Mask,
    color: Color,
    ox: int,
    oy: int,
    x: int,
    y: int,
    ch: int,
) -> int {
    if covered(mask, ox, oy, x, y) {
        blend_channel(base.byte_at(x, y, ch) as int, mask.at(x - ox, y - oy), color.channel(ch))
    } else {
        base.byte_at(x, y, ch) as int
    }
}

/// Distinct in-range pixel coordinates map to distinct byte indices.
proof fn lemma_byte_index_injective(w: int, h: int, x1: int, y1: int, c1: int, x2: int, y2: int, c2: int)
    requires
        0 <= x1 < w,
        0 <= y1 < h,
        0 <= c1 < 4,
        0 <= x2 < w,
        0 <= y2 < h,
        0 <= c2 < 4,
        4 * (y1 * w + x1) + c1 == 4 * (y2 * w + x2) + c2,
    ensures
        x1 == x2 && y1 == y2 && c1 == c2,
{
    assert(y1 * w + x1 == y2 * w + x2 && c1 == c2);
    assert(y1 == y2 && x1 == x2) by (nonlinear_arith)
        requires
            0 <= x1 < w,
            0 <= x2 < w,
            y1 * w + x1 == y2 * w + x2,
    ;
}

/// Every in-range pixel's byte index is inside the buffer, and the index
/// arithmetic stays within `usize`.
proof fn lemma_byte_index_in_range(base: Raster, x: int, y: int, ch: int)
    requires
        base.wf(),
        0 <= x < base.width,
        0 <= y < base.height,
        0 <= ch < 4,
    ensures
        0 <= y * base.width + x < base.width * base.height,
        0 <= 4 * (y * base.width + x) + ch < base.data@.len(),
        4 * (base.width * base.height) <= usize::MAX,
{
    vstd::std_specs::vec::axiom_spec_len(&base.data);
    assert(0 <= y * base.width + x && y * base.width + x < base.width * base.height)
        by (nonlinear_arith)
        requires
            0 <= x < base.width,
            0 <= y < base.height,
    ;
    assert(4 * ((base.width as int) * (base.height as int))
        == 4 * (base.width as int) * (base.height as int)) by (nonlinear_arith);
}

/// Read the byte of channel `ch` of pixel `(x, y)`.
pub fn get_byte(base: &Raster, x: u32, y: u32, ch: u32) -> (r: u8)
    requires
        base.wf(),
        x < base.width,
        y < base.height,
        ch < 4,
    ensures
        r == base.byte_at(x as int, y as int, ch as int),
{
    proof {
        lemma_byte_index_in_range(*base, x as int, y as int, ch as int);
    }
    let idx: usize = ((y as usize) * (base.width as usize) + (x as usize)) * 4 + (ch as usize);
    base.data[idx]
}

/// Write the byte of channel `ch` of pixel `(x, y)`, leaving every other
/// byte of the raster unchanged.
pub fn set_byte(base: &mut Raster, x: u32, y: u32, ch: u32, v: u8)
    requires
        old(base).wf(),
        x < old(base).width,
        y < old(base).height,
        ch < 4,
    ensures
        final(base).wf(),
        final(base).width == old(base).width,
        final(base).height == old(base).height,
        final(base).byte_at(x as int, y as int, ch as int) == v,
        forall|x2: int, y2: int, c2: int|
            0 <= x2 < old(base).width && 0 <= y2 < old(base).height && 0 <= c2 < 4
                && !(x2 == x as int && y2 == y as int && c2 == ch as int)
                ==> final(base).byte_at(x2, y2, c2) == #[trigger] old(base).byte_at(x2, y2, c2),
{
    proof {
        lemma_byte_index_in_range(*base, x as int, y as int, ch as int);
    }
    let idx: usize = ((y as usize) * (base.width as usize) + (x as usize)) * 4 + (ch as usize);
    base.data[idx] = v;
    proof {
        assert forall|x2: int, y2: int, c2: int|
            0 <= x2 < base.width && 0 <= y2 < base.height && 0 <= c2 < 4
                && !(x2 == x as int && y2 == y as int && c2 == ch as int)
                implies base.byte_at(x2, y2, c2) == #[trigger] old(base).byte_at(x2, y2, c2) by {
            lemma_byte_index_in_range(*base, x2, y2, c2);
            if 4 * (y2 * base.width + x2) + c2 == 4 * (y as int * base.width + x as int) + ch as int {
                lemma_byte_index_injective(
                    base.width as int, base.height as int,
                    x2, y2, c2, x as int, y as int, ch as int,
                );
            }
        }
    }
}

/// Read the coverage byte of mask pixel `(x, y)`.
pub fn mask_at(mask: &Mask, x: u32, y: u32) -> (r: u8)
    requires
        mask.wf(),
        x < mask.width,
        y < mask.height,
    ensures
        r == mask.at(x as int, y as int),
{
    proof {
        vstd::std_specs::vec::axiom_spec_len(&mask.data);
        assert(0 <= y * mask.width + x && y * mask.width + x < mask.width * mask.height)
            by (nonlinear_arith)
            requires
                0 <= x < mask.width,
                0 <= y < mask.height,
        ;
    }
    let idx: usize = (y as usize) * (mask.width as usize) + (x as usize);
    mask.data[idx]
}

/// The byte at `(x, y, ch)` when the mask pixels before `(mx, my)` (in row
/// major order) have been blended and the rest have not.
spec fn partially_overlaid_byte(
    base: Raster,
    mask: Mask,
    color: Color,
    ox: int,
    oy: int,
    x: int,
    y: int,
    ch: int,
    my: int,
    mx: int,
) -> int {
    if covered(mask, ox, oy, x, y) && (y - oy < my || (y - oy == my && x - ox < mx)) {
        blend_channel(base.byte_at(x, y, ch) as int, mask.at(x - ox, y - oy), color.channel(ch))
    } else {
        base.byte_at(x, y, ch) as int
    }
}

/// Overlay `mask` onto `base` with the given constant color, the mask's
/// top-left pixel landing on base pixel `(ox, oy)`. Mask pixels that fall
/// outside the raster are skipped; nothing else changes.
pub fn overlay(base: &mut Raster, mask: &Mask, color: Color, ox: u32, oy: u32)
    requires
        old(base).wf(),
        mask.wf(),
    ensures
        final(base).wf(),
        final(base).width == old(base).width,
        final(base).height == old(base).height,
        forall|x: int, y: int, ch: int|
            0 <= x < old(base).width && 0 <= y < old(base).height && 0 <= ch < 4
                ==> final(base).byte_at(x, y, ch)
                    == #[trigger] overlaid_byte(*old(base), *mask, color, ox as int, oy as int, x, y, ch),
{
    let w = base.width;
    let h = base.height;
    let mut my: u32 = 0;
    while my < mask.height
        invariant
            base.wf(),
            mask.wf(),
            base.width == w == old(base).width,
            base.height == h == old(base).height,
            my <= mask.height,
            forall|x: int, y: int, ch: int|
                0 <= x < w && 0 <= y < h && 0 <= ch < 4
                    ==> base.byte_at(x, y, ch)
                        == #[trigger] partially_overlaid_byte(
                            *old(base), *mask, color, ox as int, oy as int, x, y, ch, my as int, 0,
                        ),
        decreases mask.height - my,
    {
        let mut mx: u32 = 0;
        while mx < mask.width
            invariant
                base.wf(),
                mask.wf(),
                base.width == w == old(base).width,
                base.height == h == old(base).height,
                my < mask.height,
                mx <= mask.width,
                forall|x: int, y: int, ch: int|
                    0 <= x < w && 0 <= y < h && 0 <= ch < 4
                        ==> base.byte_at(x, y, ch)
                            == #[trigger] partially_overlaid_byte(
                                *old(base), *mask, color, ox as int, oy as int, x, y, ch, my as int, mx as int,
                            ),
            decreases mask.width - mx,
        {
            let tx = ox as u64 + mx as u64;
            let ty = oy as u64 + my as u64;
            if tx < w as u64 && ty < h as u64 {
                let txu = tx as u32;
                let tyu = ty as u32;
                let m = mask_at(mask, mx, my);
                let ghost prev = *base;
                let b0 = get_byte(base, txu, tyu, 0);
                set_byte(base, txu, tyu, 0, blend_byte(b0, m, color.r));
                let b1 = get_byte(base, txu, tyu, 1);
                set_byte(base, txu, tyu, 1, blend_byte(b1, m, color.g));
                let b2 = get_byte(base, txu, tyu, 2);
                set_byte(base, txu, tyu, 2, blend_byte(b2, m, color.b));
                let b3 = get_byte(base, txu, tyu, 3);
                set_byte(base, txu, tyu, 3, blend_byte(b3, m, color.a));
                proof {
                    assert forall|x: int, y: int, ch: int|
                        0 <= x < w && 0 <= y < h && 0 <= ch < 4
                            implies base.byte_at(x, y, ch)
                                == #[trigger] partially_overlaid_byte(
                                    *old(base), *mask, color, ox as int, oy as int, x, y, ch,
                                    my as int, mx as int + 1,
                                ) by {
                        assert(prev.byte_at(x, y, ch)
                            == partially_overlaid_byte(
                                *old(base), *mask, color, ox as int, oy as int, x, y, ch,
                                my as int, mx as int,
                            ));
                    }
                }
            } else {
                proof {
                    assert forall|x: int, y: int, ch: int|
                        0 <= x < w && 0 <= y < h && 0 <= ch < 4
                            implies base.byte_at(x, y, ch)
                                == #[trigger] partially_overlaid_byte(
                                    *old(base), *mask, color, ox as int, oy as int, x, y, ch,
                                    my as int, mx as int + 1,
                                ) by {
                        assert(base.byte_at(x, y, ch)
                            == partially_overlaid_byte(
                                *old(base), *mask, color, ox as int, oy as int, x, y, ch,
                                my as int, mx as int,
                            ));
                    }
                }
            }
            mx = mx + 1;
        }
        proof {
            assert forall|x: int, y: int, ch: int|
                0 <= x < w && 0 <= y < h && 0 <= ch < 4
                    implies base.byte_at(x, y, ch)
                        == #[trigger] partially_overlaid_byte(
                            *old(base), *mask, color, ox as int, oy as int, x, y, ch,
                            my as int + 1, 0,
                        ) by {
                assert(base.byte_at(x, y, ch)
                    == partially_overlaid_byte(
                        *old(base), *mask, color, ox as int, oy as int, x, y, ch,
                        my as int, mask.width as int,
                    ));
            }
        }
        my = my + 1;
    }
    proof {
        assert forall|x: int, y: int, ch: int|
            0 <= x < w && 0 <= y < h && 0 <= ch < 4
                implies base.byte_at(x, y, ch)
                    == #[trigger] overlaid_byte(*old(base), *mask, color, ox as int, oy as int, x, y, ch) by {
            assert(base.byte_at(x, y, ch)
                == partially_overlaid_byte(
                    *old(base), *mask, color, ox as int, oy as int, x, y, ch,
                    mask.height as int, 0,
                ));
        }
    }
}


/// Two well-formed rasters of the same dimensions with the same byte at
/// every pixel and channel have equal buffers.
pub proof fn lemma_raster_bytes_eq(a: Raster, b: Raster)
    requires
        a.wf(),
        b.wf(),
        a.width == b.width,
        a.height == b.height,
        forall|x: int, y: int, ch: int|
            0 <= x < a.width && 0 <= y < a.height && 0 <= ch < 4
                ==> #[trigger] a.byte_at(x, y, ch) == b.byte_at(x, y, ch),
    ensures
        a.data@ == b.data@,
{
    let w = a.width as int;
    let h = a.height as int;
    assert forall|i: int| 0 <= i < a.data@.len() implies a.data@[i] == b.data@[i] by {
        assert(0 < w && 0 < h) by (nonlinear_arith)
            requires
                0 <= w,
                0 <= h,
                0 < 4 * w * h,
        ;
        let p = i / 4;
        let ch = i % 4;
        let x = p % w;
        let y = p / w;
        assert(i == 4 * p + ch && 0 <= ch < 4 && 0 <= p < w * h) by (nonlinear_arith)
            requires
                0 <= i < 4 * w * h,
                p == i / 4,
                ch == i % 4,
                0 < w,
                0 < h,
        ;
        assert(p == y * w + x && 0 <= x < w && 0 <= y < h) by (nonlinear_arith)
            requires
                0 <= p < w * h,
                x == p % w,
                y == p / w,
                0 < w,
                0 < h,
        ;
        assert(a.byte_at(x, y, ch) == b.byte_at(x, y, ch));
    }
    assert(a.data@ =~= b.data@);
}

/// Overlaying an all-zero (fully transparent) coverage mask leaves the
/// raster byte-for-byte unchanged.
pub proof fn lemma_overlay_transparent(
    before: Raster,
    after: Raster,
    mask: Mask,
    color: Color,
    ox: int,
    oy: int,
)
    requires
        before.wf(),
        after.wf(),
        mask.wf(),
        after.width == before.width,
        after.height == before.height,
        forall|x: int, y: int| 0 <= x < mask.width && 0 <= y < mask.height
            ==> #[trigger] mask.at(x, y) == 0,
        forall|x: int, y: int, ch: int|
            0 <= x < before.width && 0 <= y < before.height && 0 <= ch < 4
                ==> after.byte_at(x, y, ch)
                    == #[trigger] overlaid_byte(before, mask, color, ox, oy, x, y, ch),
    ensures
        after.data@ == before.data@,
{
    assert forall|x: int, y: int, ch: int|
        0 <= x < after.width && 0 <= y < after.height && 0 <= ch < 4
            implies #[trigger] after.byte_at(x, y, ch) == before.byte_at(x, y, ch) by {
        assert(after.byte_at(x, y, ch) == overlaid_byte(before, mask, color, ox, oy, x, y, ch));
        if covered(mask, ox, oy, x, y) {
            assert(mask.at(x - ox, y - oy) == 0);
            lemma_blend_transparent(before.byte_at(x, y, ch) as int, color.channel(ch));
        }
    }
    lemma_raster_bytes_eq(after, before);
}

/// Overlaying an all-255 (fully opaque) coverage mask sets every covered
/// in-bounds pixel to exactly the given color and leaves the rest unchanged.
pub proof fn lemma_overlay_opaque(
    before: Raster,
    after: Raster,
    mask: Mask,
    color: Color,
    ox: int,
    oy: int,
)
    requires
        before.wf(),
        after.wf(),
        mask.wf(),
        after.width == before.width,
        after.height == before.height,
        forall|x: int, y: int| 0 <= x < mask.width && 0 <= y < mask.height
            ==> #[trigger] mask.at(x, y) == 255,
        forall|x: int, y: int, ch: int|
            0 <= x < before.width && 0 <= y < before.height && 0 <= ch < 4
                ==> after.byte_at(x, y, ch)
                    == #[trigger] overlaid_byte(before, mask, color, ox, oy, x, y, ch),
    ensures
        forall|x: int, y: int, ch: int|
            0 <= x < before.width && 0 <= y < before.height && 0 <= ch < 4
                && covered(mask, ox, oy, x, y)
                ==> #[trigger] after.byte_at(x, y, ch) == color.channel(ch),
        forall|x: int, y: int, ch: int|
            0 <= x < before.width && 0 <= y < before.height && 0 <= ch < 4
                && !covered(mask, ox, oy, x, y)
                ==> #[trigger] after.byte_at(x, y, ch) == before.byte_at(x, y, ch),
{
    assert forall|x: int, y: int, ch: int|
        0 <= x < before.width && 0 <= y < before.height && 0 <= ch < 4
            && covered(mask, ox, oy, x, y)
            implies #[trigger] after.byte_at(x, y, ch) == color.channel(ch) by {
        assert(after.byte_at(x, y, ch) == overlaid_byte(before, mask, color, ox, oy, x, y, ch));
        assert(mask.at(x - ox, y - oy) == 255);
        lemma_blend_opaque(before.byte_at(x, y, ch) as int, color.channel(ch));
    }
    assert forall|x: int, y: int, ch: int|
        0 <= x < before.width && 0 <= y < before.height && 0 <= ch < 4
            && !covered(mask, ox, oy, x, y)
            implies #[trigger] after.byte_at(x, y, ch) == before.byte_at(x, y, ch) by {
        assert(after.byte_at(x, y, ch) == overlaid_byte(before, mask, color, ox, oy, x, y, ch));
    }
}

/// An overlay whose origin lies at or beyond the raster's right or bottom
/// edge covers nothing and leaves the raster unchanged, however large the
/// mask. Out-of-bounds portions of any overlay touch no pixel at all.
pub proof fn lemma_overlay_clipped_out(
    before: Raster,
    after: Raster,
    mask: Mask,
    color: Color,
    ox: int,
    oy: int,
)
    requires
        before.wf(),
        after.wf(),
        mask.wf(),
        after.width == before.width,
        after.height == before.height,
        ox >= before.width || oy >= before.height,
        forall|x: int, y: int, ch: int|
            0 <= x < before.width && 0 <= y < before.height && 0 <= ch < 4
                ==> after.byte_at(x, y, ch)
                    == #[trigger] overlaid_byte(before, mask, color, ox, oy, x, y, ch),
    ensures
        after.data@ == before.data@,
{
    assert forall|x: int, y: int, ch: int|
        0 <= x < after.width && 0 <= y < after.height && 0 <= ch < 4
            implies #[trigger] after.byte_at(x, y, ch) == before.byte_at(x, y, ch) by {
        assert(after.byte_at(x, y, ch) == overlaid_byte(before, mask, color, ox, oy, x, y, ch));
        assert(!covered(mask, ox, oy, x, y));
    }
    lemma_raster_bytes_eq(after, before);
}


/// True when base pixel `(x, y)` is covered by a source raster of `src`'s
/// dimensions laid at origin `(ox, oy)`.
pub open spec fn blit_covered(src: Raster, ox: int, oy: int, x: int, y: int) -> bool {
    ox <= x < ox + src.width && oy <= y < oy + src.height
}

/// The byte of channel `ch` at `(x, y)` after blitting `src` opaquely onto
/// the base at origin `(ox, oy)`: the source byte where covered, the base
/// byte elsewhere.
pub open spec fn blitted_byte(
    base: Raster,
    src: Raster,
    ox: int,
    oy: int,
    x: int,
    y: int,
    ch: int,
) -> u8 {
    if blit_covered(src, ox, oy, x, y) {
        src.byte_at(x - ox, y - oy, ch)
    } else {
        base.byte_at(x, y, ch)
    }
}

/// The byte at `(x, y, ch)` when the source pixels before `(sx, sy)` (in row
/// major order) have been copied and the rest have not.
spec fn partially_blitted_byte(
    base: Raster,
    src: Raster,
    ox: int,
    oy: int,
    x: int,
    y: int,
    ch: int,
    sy: int,
    sx: int,
) -> u8 {
    if blit_covered(src, ox, oy, x, y) && (y - oy < sy || (y - oy == sy && x - ox < sx)) {
        src.byte_at(x - ox, y - oy, ch)
    } else {
        base.byte_at(x, y, ch)
    }
}

/// Copy `src` opaquely onto `base`, its top-left pixel landing on base pixel
/// `(ox, oy)`. Source pixels that fall outside the raster are skipped;
/// nothing else changes.
pub fn blit(base: &mut Raster, src: &Raster, ox: u32, oy: u32)
    requires
        old(base).wf(),
        src.wf(),
    ensures
        final(base).wf(),
        final(base).width == old(base).width,
        final(base).height == old(base).height,
        forall|x: int, y: int, ch: int|
            0 <= x < old(base).width && 0 <= y < old(base).height && 0 <= ch < 4
                ==> final(base).byte_at(x, y, ch)
                    == #[trigger] blitted_byte(*old(base), *src, ox as int, oy as int, x, y, ch),
{
    let w = base.width;
    let h = base.height;
    let mut sy: u32 = 0;
    while sy < src.height
        invariant
            base.wf(),
            src.wf(),
            base.width == w == old(base).width,
            base.height == h == old(base).height,
            sy <= src.height,
            forall|x: int, y: int, ch: int|
                0 <= x < w && 0 <= y < h && 0 <= ch < 4
                    ==> base.byte_at(x, y, ch)
                        == #[trigger] partially_blitted_byte(
                            *old(base), *src, ox as int, oy as int, x, y, ch, sy as int, 0,
                        ),
        decreases src.height - sy,
    {
        let mut sx: u32 = 0;
        while sx < src.width
            invariant
                base.wf(),
                src.wf(),
                base.width == w == old(base).width,
                base.height == h == old(base).height,
                sy < src.height,
                sx <= src.width,
                forall|x: int, y: int, ch: int|
                    0 <= x < w && 0 <= y < h && 0 <= ch < 4
                        ==> base.byte_at(x, y, ch)
                            == #[trigger] partially_blitted_byte(
                                *old(base), *src, ox as int, oy as int, x, y, ch, sy as int, sx as int,
                            ),
            decreases src.width - sx,
        {
            let tx = ox as u64 + sx as u64;
            let ty = oy as u64 + sy as u64;
            if tx < w as u64 && ty < h as u64 {
                let txu = tx as u32;
                let tyu = ty as u32;
                let ghost prev = *base;
                let v0 = get_byte(src, sx, sy, 0);
                set_byte(base, txu, tyu, 0, v0);
                let v1 = get_byte(src, sx, sy, 1);
                set_byte(base, txu, tyu, 1, v1);
                let v2 = get_byte(src, sx, sy, 2);
                set_byte(base, txu, tyu, 2, v2);
                let v3 = get_byte(src, sx, sy, 3);
                set_byte(base, txu, tyu, 3, v3);
                proof {
                    assert forall|x: int, y: int, ch: int|
                        0 <= x < w && 0 <= y < h && 0 <= ch < 4
                            implies base.byte_at(x, y, ch)
                                == #[trigger] partially_blitted_byte(
                                    *old(base), *src, ox as int, oy as int, x, y, ch,
                                    sy as int, sx as int + 1,
                                ) by {
                        assert(prev.byte_at(x, y, ch)
                            == partially_blitted_byte(
                                *old(base), *src, ox as int, oy as int, x, y, ch,
                                sy as int, sx as int,
                            ));
                    }
                }
            } else {
                proof {
                    assert forall|x: int, y: int, ch: int|
                        0 <= x < w && 0 <= y < h && 0 <= ch < 4
                            implies base.byte_at(x, y, ch)
                                == #[trigger] partially_blitted_byte(
                                    *old(base), *src, ox as int, oy as int, x, y, ch,
                                    sy as int, sx as int + 1,
                                ) by {
                        assert(base.byte_at(x, y, ch)
                            == partially_blitted_byte(
                                *old(base), *src, ox as int, oy as int, x, y, ch,
                                sy as int, sx as int,
                            ));
                    }
                }
            }
            sx = sx + 1;
        }
        proof {
            assert forall|x: int, y: int, ch: int|
                0 <= x < w && 0 <= y < h && 0 <= ch < 4
                    implies base.byte_at(x, y, ch)
                        == #[trigger] partially_blitted_byte(
                            *old(base), *src, ox as int, oy as int, x, y, ch,
                            sy as int + 1, 0,
                        ) by {
                assert(base.byte_at(x, y, ch)
                    == partially_blitted_byte(
                        *old(base), *src, ox as int, oy as int, x, y, ch,
                        sy as int, src.width as int,
                    ));
            }
        }
        sy = sy + 1;
    }
    proof {
        assert forall|x: int, y: int, ch: int|
            0 <= x < w && 0 <= y < h && 0 <= ch < 4
                implies base.byte_at(x, y, ch)
                    == #[trigger] blitted_byte(*old(base), *src, ox as int, oy as int, x, y, ch) by {
            assert(base.byte_at(x, y, ch)
                == partially_blitted_byte(
                    *old(base), *src, ox as int, oy as int, x, y, ch,
                    src.height as int, 0,
                ));
        }
    }
}
} // verus!
