//! Positioned glyphs, direct glyph compositing, and the per-render
//! rasterized-glyph cache.
//!
//! A positioned glyph is a coverage mask together with its pixel offset
//! inside a laid-out block of text, as the font rasterizer produced it.
//! Glyphs standing for control characters carry no ink and are filtered
//! out before compositing. The cache memoizes rasterized masks within one
//! render call, keyed by the packed (font, size, glyph) triple; it is a
//! performance device only and is discarded when the render ends.

use std::collections::HashMap;

use vstd::prelude::*;

use crate::compositor::{blend_channel, overlay, overlaid_byte};
use crate::raster::{Color, Mask, Raster};

verus! {

broadcast use vstd::std_specs::hash::group_hash_axioms;

/// One glyph of a laid-out block of text: its coverage mask and its pixel
/// offset within the block.
pub struct PositionedGlyph {
    pub x: u32,
    pub y: u32,
    pub mask: Mask,
    pub is_control: bool,
}

impl PositionedGlyph {
    /// The coverage mask is well formed.
    pub open spec fn wf(self) -> bool {
        self.mask.wf()
    }
}

/// True when the glyph, drawn for a block whose top-left corner is
/// `(ox, oy)`, puts ink on base pixel `(x, y)`. Control glyphs never do.
pub open spec fn glyph_covers(g: PositionedGlyph, ox: int, oy: int, x: int, y: int) -> bool {
    &&& !g.is_control
    &&& ox + g.x <= x < ox + g.x + g.mask.width
    &&& oy + g.y <= y < oy + g.y + g.mask.height
}

/// The value of channel `ch` of base pixel `(x, y)` after blending the
/// glyphs one by one, in order, onto a pixel whose channel held `orig`.
/// Each glyph blends with its own coverage; control glyphs are skipped.
pub open spec fn drawn_byte(
    orig: int,
    glyphs: Seq<PositionedGlyph>,
    color: Color,
    ox: int,
    oy: int,
    x: int,
    y: int,
    ch: int,
) -> int
    decreases glyphs.len(),
{
    if glyphs.len() == 0 {
        orig
    } else {
        let prev = drawn_byte(orig, glyphs.drop_last(), color, ox, oy, x, y, ch);
        let g = glyphs.last();
        if glyph_covers(g, ox, oy, x, y) {
            blend_channel(prev, g.mask.at(x - (ox + g.x), y - (oy + g.y)), color.channel(ch))
        } else {
            prev
        }
    }
}

/// Blend every non-control glyph of a laid-out block onto `base`, the
/// block's top-left corner landing on base pixel `(ox, oy)`. Glyph pixels
/// that fall outside the raster are skipped silently.
pub fn draw_glyphs(base: &mut Raster, glyphs: &Vec<PositionedGlyph>, color: Color, ox: u32, oy: u32)
    requires
        old(base).wf(),
        forall|i: int| 0 <= i < glyphs@.len() ==> (#[trigger] glyphs@[i]).wf(),
    ensures
        final(base).wf(),
        final(base).width == old(base).width,
        final(base).height == old(base).height,
        forall|x: int, y: int, ch: int|
            0 <= x < old(base).width && 0 <= y < old(base).height && 0 <= ch < 4
                ==> final(base).byte_at(x, y, ch)
                    == #[trigger] drawn_byte(
                        old(base).byte_at(x, y, ch) as int, glyphs@, color, ox as int, oy as int,
                        x, y, ch,
                    ),
{
    let w = base.width;
    let h = base.height;
    let mut i: usize = 0;
    while i < glyphs.len()
        invariant
            base.wf(),
            base.width == w == old(base).width,
            base.height == h == old(base).height,
            i <= glyphs@.len(),
            forall|j: int| 0 <= j < glyphs@.len() ==> (#[trigger] glyphs@[j]).wf(),
            forall|x: int, y: int, ch: int|
                0 <= x < w && 0 <= y < h && 0 <= ch < 4
                    ==> base.byte_at(x, y, ch)
                        == #[trigger] drawn_byte(
                            old(base).byte_at(x, y, ch) as int, glyphs@.take(i as int), color,
                            ox as int, oy as int, x, y, ch,
                        ),
        decreases glyphs@.len() - i,
    {
        let ghost prev = *base;
        let g = &glyphs[i];
        let gx = ox as u64 + g.x as u64;
        let gy = oy as u64 + g.y as u64;
        let drawn = !g.is_control && gx < w as u64 && gy < h as u64;
        if drawn {
            overlay(base, &g.mask, color, gx as u32, gy as u32);
        }
        proof {
            let gs = glyphs@;
            assert(gs.take(i as int + 1).drop_last() =~= gs.take(i as int));
            assert(gs.take(i as int + 1).last() == gs[i as int]);
            assert forall|x: int, y: int, ch: int|
                0 <= x < w && 0 <= y < h && 0 <= ch < 4
                    implies base.byte_at(x, y, ch)
                        == #[trigger] drawn_byte(
                            old(base).byte_at(x, y, ch) as int, gs.take(i as int + 1), color,
                            ox as int, oy as int, x, y, ch,
                        ) by {
                assert(prev.byte_at(x, y, ch)
                    == drawn_byte(
                        old(base).byte_at(x, y, ch) as int, gs.take(i as int), color,
                        ox as int, oy as int, x, y, ch,
                    ));
                if drawn {
                    assert(base.byte_at(x, y, ch)
                        == overlaid_byte(prev, gs[i as int].mask, color, gx as int, gy as int, x, y, ch));
                } else {
                    assert(!glyph_covers(gs[i as int], ox as int, oy as int, x, y));
                }
            }
        }
        i = i + 1;
    }
    proof {
        assert(glyphs@.take(glyphs@.len() as int) =~= glyphs@);
    }
}

/// A pixel no glyph covers keeps its value through the whole blend chain.
pub proof fn lemma_drawn_byte_uncovered(
    orig: int,
    glyphs: Seq<PositionedGlyph>,
    color: Color,
    ox: int,
    oy: int,
    x: int,
    y: int,
    ch: int,
)
    requires
        forall|i: int| 0 <= i < glyphs.len() ==> !glyph_covers(#[trigger] glyphs[i], ox, oy, x, y),
    ensures
        drawn_byte(orig, glyphs, color, ox, oy, x, y, ch) == orig,
    decreases glyphs.len(),
{
    if glyphs.len() > 0 {
        assert(!glyph_covers(glyphs[glyphs.len() - 1], ox, oy, x, y));
        lemma_drawn_byte_uncovered(orig, glyphs.drop_last(), color, ox, oy, x, y, ch);
    }
}

/// Ink is confined to the laid-out block: when every glyph's box lies
/// inside a block of `bw` by `bh` pixels, drawing the block at `(ox, oy)`
/// leaves every pixel outside the block's rectangle unchanged.
pub proof fn lemma_glyphs_confined_to_block(
    orig: int,
    glyphs: Seq<PositionedGlyph>,
    color: Color,
    ox: int,
    oy: int,
    bw: int,
    bh: int,
    x: int,
    y: int,
    ch: int,
)
    requires
        forall|i: int|
            0 <= i < glyphs.len() ==> (#[trigger] glyphs[i]).x + glyphs[i].mask.width <= bw
                && glyphs[i].y + glyphs[i].mask.height <= bh,
        !(ox <= x < ox + bw && oy <= y < oy + bh),
    ensures
        drawn_byte(orig, glyphs, color, ox, oy, x, y, ch) == orig,
{
    assert forall|i: int| 0 <= i < glyphs.len() implies !glyph_covers(
        #[trigger] glyphs[i], ox, oy, x, y,
    ) by {
        assert(glyphs[i].x + glyphs[i].mask.width <= bw);
    }
    lemma_drawn_byte_uncovered(orig, glyphs, color, ox, oy, x, y, ch);
}

/// Pack a font identity, a glyph identity and a size in quarter-pixel
/// units into one cache key. Distinct triples give distinct keys.
pub fn pack_glyph_key(font_id: u16, glyph_id: u16, size_q: u32) -> (k: u64)
    ensures
        k == font_id * 0x1_0000_0000_0000 + glyph_id * 0x1_0000_0000 + size_q,
{
    (font_id as u64) * 0x1_0000_0000_0000 + (glyph_id as u64) * 0x1_0000_0000 + (size_q as u64)
}

/// Packing is injective: equal keys come only from equal triples.
pub proof fn lemma_glyph_key_injective(f1: u16, g1: u16, s1: u32, f2: u16, g2: u16, s2: u32)
    requires
        f1 * 0x1_0000_0000_0000 + g1 * 0x1_0000_0000 + s1 == f2 * 0x1_0000_0000_0000 + g2
            * 0x1_0000_0000 + s2,
    ensures
        f1 == f2,
        g1 == g2,
        s1 == s2,
{
}

/// The rasterized-glyph cache of one render call: packed key to coverage
/// mask. A found entry is exactly what was stored for that key.
pub struct GlyphCache {
    map: HashMap<u64, Mask>,
}

impl GlyphCache {
    /// The cached masks, by key.
    pub closed spec fn view(self) -> Map<u64, Mask> {
        self.map@
    }

    /// An empty cache for a fresh render call.
    pub fn new() -> (r: GlyphCache)
        ensures
            r@ == Map::<u64, Mask>::empty(),
    {
        GlyphCache { map: HashMap::new() }
    }

    /// The mask stored under `key`, if any.
    pub fn lookup(&self, key: u64) -> (r: Option<&Mask>)
        ensures
            match r {
                Some(m) => self@.contains_key(key) && *m == self@[key],
                None => !self@.contains_key(key),
            },
    {
        self.map.get(&key)
    }

    /// Store `mask` under `key`, replacing any earlier entry.
    pub fn store(&mut self, key: u64, mask: Mask)
        ensures
            final(self)@ == old(self)@.insert(key, mask),
    {
        self.map.insert(key, mask);
    }
}

} // verus!
