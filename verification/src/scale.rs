//! Scale-to-fit of whole images into rectangular slots.
//!
//! A source raster is scaled by one uniform factor so that it fits entirely
//! within the slot, centered along the axis with slack, and then blitted
//! opaquely. The resampling itself is done by the `image` crate; this module
//! proves the geometry (aspect ratio kept within integer rounding, result
//! contained in the slot) and the compositing around the resampling call.

use vstd::prelude::*;

use crate::compositor::{blit, blitted_byte};
use crate::raster::Raster;

verus! {

/// The pixels produced by area-resampling an RGBA buffer of dimensions
/// `(w, h)` to dimensions `(tw, th)`. The bytes are a function of the
/// source pixels and the four dimensions alone.
pub uninterp spec fn resampled(src: Seq<u8>, w: int, h: int, tw: int, th: int) -> Seq<u8>;

/// Relies on `image::imageops::thumbnail`: an area-sampled resize whose
/// output is an RGBA buffer of exactly the requested dimensions, computed
/// from the source pixels and the dimensions alone. The resampler sums
/// channel bytes and counts a sample block's pixels in 32-bit
/// accumulators, a block can span the whole source, and averaging adds
/// half the block's pixel count to the sum before dividing; so the
/// source's pixel count times 256 must fit in one accumulator. Within
/// that bound no sum, count or rounding addition overflows and every
/// block divisor is positive, in every build profile.
#[verifier::external_body]
fn thumbnail_rgba(data: &Vec<u8>, w: u32, h: u32, tw: u32, th: u32) -> (r: Vec<u8>)
    requires
        data@.len() == 4 * w * h,
        1 <= w,
        1 <= h,
        256 * w * h <= u32::MAX,
        4 * tw * th <= usize::MAX,
    ensures
        r@ == resampled(data@, w as int, h as int, tw as int, th as int),
        r@.len() == 4 * tw * th,
{
    let img = image::RgbaImage::from_raw(w, h, data.clone()).unwrap();
    image::imageops::thumbnail(&img, tw, th).into_raw()
}

/// The product of two values below two to the thirty-second fits in a u64.
proof fn lemma_mul_u32_fits_u64(a: int, b: int)
    requires
        0 <= a < 0x1_0000_0000,
        0 <= b < 0x1_0000_0000,
    ensures
        0 <= a * b <= 0xffff_fffe_0000_0001,
{
    assert(0 <= a * b <= 0xffff_fffe_0000_0001) by (nonlinear_arith)
        requires
            0 <= a < 0x1_0000_0000,
            0 <= b < 0x1_0000_0000,
    ;
}

/// The dimensions of a source of size `(src_w, src_h)` scaled by the largest
/// uniform factor that keeps it inside a slot of size `(slot_w, slot_h)`:
/// the limiting axis is filled exactly and the other is scaled in
/// proportion, rounding down.
pub open spec fn fit_dims(src_w: int, src_h: int, slot_w: int, slot_h: int) -> (int, int) {
    if slot_w * src_h <= slot_h * src_w {
        (slot_w, (src_h * slot_w) / src_w)
    } else {
        ((src_w * slot_h) / src_h, slot_h)
    }
}

/// Scale-to-fit keeps the aspect ratio within one pixel of integer rounding,
/// fits inside the slot, and fills the slot exactly along the limiting axis.
pub proof fn lemma_fit_dims_aspect(src_w: int, src_h: int, slot_w: int, slot_h: int)
    requires
        1 <= src_w,
        1 <= src_h,
        0 <= slot_w,
        0 <= slot_h,
    ensures
        0 <= fit_dims(src_w, src_h, slot_w, slot_h).0 <= slot_w,
        0 <= fit_dims(src_w, src_h, slot_w, slot_h).1 <= slot_h,
        fit_dims(src_w, src_h, slot_w, slot_h).0 == slot_w
            || fit_dims(src_w, src_h, slot_w, slot_h).1 == slot_h,
        -src_h < fit_dims(src_w, src_h, slot_w, slot_h).0 * src_h
            - fit_dims(src_w, src_h, slot_w, slot_h).1 * src_w < src_w,
{
    if slot_w * src_h <= slot_h * src_w {
        let th = (src_h * slot_w) / src_w;
        assert(0 <= th && th * src_w <= src_h * slot_w && src_h * slot_w - th * src_w < src_w
            && th <= slot_h) by (nonlinear_arith)
            requires
                1 <= src_w,
                0 <= src_h,
                0 <= slot_w,
                src_h * slot_w <= slot_h * src_w,
                th == (src_h * slot_w) / src_w,
        ;
    } else {
        let tw = (src_w * slot_h) / src_h;
        assert(0 <= tw && tw * src_h <= src_w * slot_h && src_w * slot_h - tw * src_h < src_h
            && tw <= slot_w) by (nonlinear_arith)
            requires
                1 <= src_h,
                0 <= src_w,
                0 <= slot_h,
                src_w * slot_h <= slot_w * src_h,
                tw == (src_w * slot_h) / src_h,
        ;
    }
}

/// Compute the scaled dimensions and the centering offsets within the slot.
pub fn fit_dims_and_offsets(src_w: u32, src_h: u32, slot_w: u32, slot_h: u32) -> (r: (u32, u32, u32, u32))
    requires
        1 <= src_w,
        1 <= src_h,
    ensures
        (r.0 as int, r.1 as int) == fit_dims(src_w as int, src_h as int, slot_w as int, slot_h as int),
        r.0 <= slot_w,
        r.1 <= slot_h,
        r.2 == (slot_w - r.0) as int / 2,
        r.3 == (slot_h - r.1) as int / 2,
{
    proof {
        lemma_fit_dims_aspect(src_w as int, src_h as int, slot_w as int, slot_h as int);
        lemma_mul_u32_fits_u64(slot_w as int, src_h as int);
        lemma_mul_u32_fits_u64(slot_h as int, src_w as int);
        lemma_mul_u32_fits_u64(src_h as int, slot_w as int);
        lemma_mul_u32_fits_u64(src_w as int, slot_h as int);
    }
    let limit_w = (slot_w as u64) * (src_h as u64) <= (slot_h as u64) * (src_w as u64);
    let (tw, th): (u32, u32) = if limit_w {
        let th64 = (src_h as u64) * (slot_w as u64) / (src_w as u64);
        (slot_w, th64 as u32)
    } else {
        let tw64 = (src_w as u64) * (slot_h as u64) / (src_h as u64);
        (tw64 as u32, slot_h)
    };
    let off_x = (slot_w - tw) / 2;
    let off_y = (slot_h - th) / 2;
    (tw, th, off_x, off_y)
}

/// The byte of channel `ch` at `(x, y)` of a buffer `data` of width `w`
/// after scaling a source buffer `src` of dimensions `(sw, sh)` to fit the
/// slot `[sx0, sx0 + slot_w) x [sy0, sy0 + slot_h)` and blitting it,
/// centered, onto the buffer. A source with an empty dimension, a source
/// with more pixels than the resampler's 32-bit accumulators can average,
/// or a scaled buffer too large for this machine, leaves the buffer
/// unchanged.
pub open spec fn sscaled_byte(
    data: Seq<u8>,
    w: int,
    src: Seq<u8>,
    sw: int,
    sh: int,
    sx0: int,
    sy0: int,
    slot_w: int,
    slot_h: int,
    x: int,
    y: int,
    ch: int,
) -> u8 {
    if sw == 0 || sh == 0 || 256 * sw * sh > u32::MAX {
        data[4 * (y * w + x) + ch]
    } else {
        let (tw, th) = fit_dims(sw, sh, slot_w, slot_h);
        if tw * th > usize::MAX / 4 {
            data[4 * (y * w + x) + ch]
        } else {
            let ox = sx0 + (slot_w - tw) / 2;
            let oy = sy0 + (slot_h - th) / 2;
            if ox <= x < ox + tw && oy <= y < oy + th {
                resampled(src, sw, sh, tw, th)[4 * ((y - oy) * tw + (x - ox)) + ch]
            } else {
                data[4 * (y * w + x) + ch]
            }
        }
    }
}

/// [`sscaled_byte`] for raster values.
pub open spec fn scaled_into_byte(
    base: Raster,
    src: Raster,
    sx0: int,
    sy0: int,
    slot_w: int,
    slot_h: int,
    x: int,
    y: int,
    ch: int,
) -> u8 {
    sscaled_byte(
        base.data@, base.width as int, src.data@, src.width as int, src.height as int, sx0, sy0,
        slot_w, slot_h, x, y, ch,
    )
}

/// Scale `src` to fit the slot whose top-left corner is `(sx0, sy0)` and
/// whose size is `(slot_w, slot_h)`, and blit it opaquely onto `base`,
/// centered in the slot. Pixels outside the slot keep their value.
pub fn scale_into_slot(base: &mut Raster, src: &Raster, sx0: u32, sy0: u32, slot_w: u32, slot_h: u32)
    requires
        old(base).wf(),
        src.wf(),
        sx0 + slot_w <= u32::MAX,
        sy0 + slot_h <= u32::MAX,
    ensures
        final(base).wf(),
        final(base).width == old(base).width,
        final(base).height == old(base).height,
        forall|x: int, y: int, ch: int|
            0 <= x < old(base).width && 0 <= y < old(base).height && 0 <= ch < 4
                ==> final(base).byte_at(x, y, ch)
                    == #[trigger] scaled_into_byte(
                        *old(base), *src, sx0 as int, sy0 as int, slot_w as int, slot_h as int,
                        x, y, ch,
                    ),
        forall|x: int, y: int, ch: int|
            0 <= x < old(base).width && 0 <= y < old(base).height && 0 <= ch < 4
                && !(sx0 <= x < sx0 + slot_w && sy0 <= y < sy0 + slot_h)
                ==> final(base).byte_at(x, y, ch) == #[trigger] old(base).byte_at(x, y, ch),
{
    if src.width == 0 || src.height == 0 {
        return ;
    }
    proof {
        lemma_mul_u32_fits_u64(src.width as int, src.height as int);
        assert(256 * ((src.width as int) * (src.height as int)) == 256 * (src.width as int) * (
        src.height as int)) by (nonlinear_arith);
    }
    if (src.width as u64) * (src.height as u64) > 0xffff_ffff / 256 {
        return ;
    }
    let (tw, th, off_x, off_y) = fit_dims_and_offsets(src.width, src.height, slot_w, slot_h);
    proof {
        lemma_mul_u32_fits_u64(tw as int, th as int);
    }
    if tw as u64 * th as u64 > (usize::MAX as u64) / 4 {
        return ;
    }
    proof {
        assert(4 * ((tw as int) * (th as int)) <= usize::MAX && 4 * (tw as int) * (th as int) == 4
            * ((tw as int) * (th as int))) by (nonlinear_arith)
            requires
                0 <= (tw as int) * (th as int) <= (usize::MAX as int) / 4,
        ;
    }
    let scaled_data = thumbnail_rgba(&src.data, src.width, src.height, tw, th);
    let scaled = Raster { width: tw, height: th, data: scaled_data };
    let ox = sx0 + off_x;
    let oy = sy0 + off_y;
    blit(base, &scaled, ox, oy);
    proof {
        assert forall|x: int, y: int, ch: int|
            0 <= x < old(base).width && 0 <= y < old(base).height && 0 <= ch < 4
                implies base.byte_at(x, y, ch)
                    == #[trigger] scaled_into_byte(
                        *old(base), *src, sx0 as int, sy0 as int, slot_w as int, slot_h as int,
                        x, y, ch,
                    ) by {
            assert(base.byte_at(x, y, ch)
                == blitted_byte(*old(base), scaled, ox as int, oy as int, x, y, ch));
        }
        assert forall|x: int, y: int, ch: int|
            0 <= x < old(base).width && 0 <= y < old(base).height && 0 <= ch < 4
                && !(sx0 <= x < sx0 + slot_w && sy0 <= y < sy0 + slot_h)
                implies base.byte_at(x, y, ch) == #[trigger] old(base).byte_at(x, y, ch) by {
            assert(base.byte_at(x, y, ch)
                == blitted_byte(*old(base), scaled, ox as int, oy as int, x, y, ch));
        }
    }
}

} // verus!
