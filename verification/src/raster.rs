//! Pixel buffers: RGBA rasters and single-channel coverage masks.
//!
//! A raster owns a dense row-major byte buffer, four bytes per pixel
//! (red, green, blue, alpha). A mask owns one coverage byte per pixel,
//! 0 meaning transparent and 255 meaning fully covered.

use vstd::prelude::*;

verus! {

/// An RGBA color, one byte per channel.
#[derive(Clone, Copy, PartialEq, Eq, Structural, Debug)]
pub struct Color {
    pub r: u8,
    pub g: u8,
    pub b: u8,
    pub a: u8,
}

impl Color {
    /// The channel of this color selected by `ch` (0 = red, 1 = green,
    /// 2 = blue, 3 = alpha).
    pub open spec fn channel(self, ch: int) -> u8 {
        if ch == 0 {
            self.r
        } else if ch == 1 {
            self.g
        } else if ch == 2 {
            self.b
        } else {
            self.a
        }
    }
}

/// A dense row-major RGBA pixel buffer.
pub struct Raster {
    pub width: u32,
    pub height: u32,
    pub data: Vec<u8>,
}

/// A dense row-major coverage mask, one byte per pixel.
pub struct Mask {
    pub width: u32,
    pub height: u32,
    pub data: Vec<u8>,
}

impl Raster {
    /// The buffer holds exactly four bytes for every pixel.
    pub open spec fn wf(self) -> bool {
        self.data@.len() == 4 * self.width * self.height
    }

    /// The byte of channel `ch` of the pixel at `(x, y)`.
    pub open spec fn byte_at(self, x: int, y: int, ch: int) -> u8 {
        self.data@[4 * (y * self.width + x) + ch]
    }

    /// A raster of the given dimensions with every byte set to `fill`.
    pub fn new_filled(width: u32, height: u32, fill: u8) -> (r: Raster)
        requires
            4 * (width as int) * (height as int) <= usize::MAX,
        ensures
            r.wf(),
            r.width == width,
            r.height == height,
            forall|i: int| 0 <= i < r.data@.len() ==> r.data@[i] == fill,
    {
        proof {
            assert((width as int) * (height as int) * 4 == 4 * (width as int) * (height as int)
                && 0 <= (width as int) * (height as int)) by (nonlinear_arith);
        }
        let len: usize = (width as usize) * (height as usize) * 4;
        let mut data: Vec<u8> = Vec::new();
        let mut i: usize = 0;
        while i < len
            invariant
                i <= len,
                data@.len() == i,
                forall|j: int| 0 <= j < i ==> data@[j] == fill,
            decreases len - i,
        {
            data.push(fill);
            i = i + 1;
        }
        Raster { width, height, data }
    }
}

impl Mask {
    /// The buffer holds exactly one byte for every pixel.
    pub open spec fn wf(self) -> bool {
        self.data@.len() == self.width * self.height
    }

    /// The coverage byte of the pixel at `(x, y)`.
    pub open spec fn at(self, x: int, y: int) -> u8 {
        self.data@[y * self.width + x]
    }
}


/// The x coordinate of the pixel holding flat byte index `i` of a raster
/// `w` pixels wide.
pub open spec fn px_of(w: int, i: int) -> int {
    (i / 4) % w
}

/// The y coordinate of the pixel holding flat byte index `i` of a raster
/// `w` pixels wide.
pub open spec fn py_of(w: int, i: int) -> int {
    (i / 4) / w
}

/// The channel of flat byte index `i`.
pub open spec fn pch_of(i: int) -> int {
    i % 4
}

/// Every flat byte index of a `w` by `h` raster decomposes into an
/// in-range pixel coordinate and channel, and recomposes to itself.
pub proof fn lemma_flat_index(w: int, h: int, i: int)
    requires
        0 <= i < 4 * w * h,
        0 <= w,
        0 <= h,
    ensures
        0 <= px_of(w, i) < w,
        0 <= py_of(w, i) < h,
        0 <= pch_of(i) < 4,
        i == 4 * (py_of(w, i) * w + px_of(w, i)) + pch_of(i),
{
    assert(0 < w && 0 < h) by (nonlinear_arith)
        requires
            0 <= w,
            0 <= h,
            0 < 4 * w * h,
    ;
    let p = i / 4;
    let ch = i % 4;
    let x = p % w;
    let y = p / w;
    assert(i == 4 * p + ch && 0 <= ch < 4 && 0 <= p < w * h) by (nonlinear_arith)
        requires
            0 <= i < 4 * w * h,
            p == i / 4,
            ch == i % 4,
            0 < w,
            0 < h,
    ;
    assert(p == y * w + x && 0 <= x < w && 0 <= y < h) by (nonlinear_arith)
        requires
            0 <= p < w * h,
            x == p % w,
            y == p / w,
            0 < w,
            0 < h,
    ;
}

/// An exact copy of a raster.
pub fn copy_raster(r: &Raster) -> (c: Raster)
    ensures
        c.width == r.width,
        c.height == r.height,
        c.data@ == r.data@,
{
    let mut data: Vec<u8> = Vec::new();
    let mut i: usize = 0;
    while i < r.data.len()
        invariant
            i <= r.data@.len(),
            data@ == r.data@.take(i as int),
        decreases r.data@.len() - i,
    {
        data.push(r.data[i]);
        proof {
            assert(data@ =~= r.data@.take(i as int + 1));
        }
        i = i + 1;
    }
    proof {
        assert(r.data@.take(r.data@.len() as int) =~= r.data@);
    }
    Raster { width: r.width, height: r.height, data }
}
} // verus!
