//! Meme templates and their renderer.
//!
//! A template is a base raster plus an ordered list of rectangular slots.
//! The caller supplies one content item per slot: a text, a nested template
//! with its own content, or a raw image. Texts are laid out upstream (the
//! fit search chooses the size, the font rasterizer produces positioned
//! glyph masks) and handed in as [`TextLayout`] values, one per text item,
//! in the order [`layout_requests`] lists them. Rendering composites each
//! item into its slot in list order: glyphs are blended directly, nested
//! templates are rendered recursively and scaled to fit their slot, raw
//! images are scaled to fit. Content items beyond the slot count are
//! ignored; slots beyond the content count stay empty.

use vstd::prelude::*;

use crate::glyphs::{draw_glyphs, drawn_byte, PositionedGlyph};
use crate::raster::{copy_raster, lemma_flat_index, pch_of, px_of, py_of, Color, Raster};
use crate::scale::{scale_into_slot, scaled_into_byte, sscaled_byte};

verus! {

/// One rectangular slot of a template, in image-pixel coordinates.
/// `min` is the top-left corner, `max` the bottom-right; a slot whose
/// corners are out of order has an empty extent.
pub struct MemeText {
    pub min: (u32, u32),
    pub max: (u32, u32),
}

/// A template's persisted configuration: an optional text color (black
/// where absent) and the ordered slots.
pub struct MemeConfig {
    pub color: Option<Color>,
    pub text: Vec<MemeText>,
}

/// A static template: one base image and its configuration.
pub struct SimpleMemeTemplate {
    pub image: Raster,
    pub config: MemeConfig,
}

/// An animated template: a frame sequence and one configuration applied
/// identically to every frame.
pub struct AnimatedMemeTemplate {
    pub frames: Vec<Raster>,
    pub config: MemeConfig,
}

/// A template of either kind.
pub enum MemeTemplate {
    Simple(SimpleMemeTemplate),
    Animated(AnimatedMemeTemplate),
}

/// A finished render: one raster, or one raster per frame.
pub enum RenderedMeme {
    Simple(Raster),
    Animated(Vec<Raster>),
}

/// One content item for one slot.
pub enum MemeContent {
    /// A text, laid out and fitted into its slot's box.
    Text(String),
    /// A nested template with its own content, rendered recursively and
    /// scaled to fit the slot.
    Meme(Box<SimpleMemeTemplate>, Vec<MemeContent>),
    /// A raw image, scaled to fit the slot.
    Image(Raster),
}

/// A laid-out block of text: the positioned glyph masks the rasterizer
/// produced for the size the fit search chose.
pub struct TextLayout {
    pub glyphs: Vec<PositionedGlyph>,
}

/// One text layout the renderer will consume: the text and the pixel box
/// of its slot.
pub struct LayoutRequest {
    pub text: String,
    pub box_w: u32,
    pub box_h: u32,
}

/// The width of a slot's box; empty when the corners are out of order.
pub open spec fn slot_w(s: MemeText) -> int {
    if s.min.0 <= s.max.0 {
        s.max.0 - s.min.0
    } else {
        0
    }
}

/// The height of a slot's box; empty when the corners are out of order.
pub open spec fn slot_h(s: MemeText) -> int {
    if s.min.1 <= s.max.1 {
        s.max.1 - s.min.1
    } else {
        0
    }
}

/// The width of a slot's box.
pub fn slot_width(s: &MemeText) -> (w: u32)
    ensures
        w == slot_w(*s),
{
    if s.min.0 <= s.max.0 {
        s.max.0 - s.min.0
    } else {
        0
    }
}

/// The height of a slot's box.
pub fn slot_height(s: &MemeText) -> (h: u32)
    ensures
        h == slot_h(*s),
{
    if s.min.1 <= s.max.1 {
        s.max.1 - s.min.1
    } else {
        0
    }
}

/// The color text is drawn with: the configured one, or opaque black.
pub open spec fn effective_color(c: MemeConfig) -> Color {
    match c.color {
        Some(col) => col,
        None => Color { r: 0, g: 0, b: 0, a: 255 },
    }
}

/// Every raster reachable from the item is well formed.
pub open spec fn content_wf(c: MemeContent) -> bool
    decreases c,
{
    match c {
        MemeContent::Text(_) => true,
        MemeContent::Meme(sub, subs) => sub.image.wf() && contents_wf(subs@),
        MemeContent::Image(img) => img.wf(),
    }
}

/// Every raster reachable from any of the items is well formed.
pub open spec fn contents_wf(s: Seq<MemeContent>) -> bool
    decreases s,
{
    if s.len() == 0 {
        true
    } else {
        content_wf(s[0]) && contents_wf(s.drop_first())
    }
}

/// Well-formedness of a sequence of items covers each of its members.
pub proof fn lemma_contents_wf_index(s: Seq<MemeContent>, i: int)
    requires
        contents_wf(s),
        0 <= i < s.len(),
    ensures
        content_wf(s[i]),
    decreases s.len(),
{
    if i > 0 {
        lemma_contents_wf_index(s.drop_first(), i - 1);
    }
}

/// Every glyph of the layout carries a well-formed mask.
pub open spec fn layout_wf(l: TextLayout) -> bool {
    forall|i: int| 0 <= i < l.glyphs@.len() ==> (#[trigger] l.glyphs@[i]).wf()
}

/// Every layout of the sequence is well formed.
pub open spec fn layouts_wf(s: Seq<TextLayout>) -> bool {
    forall|i: int| 0 <= i < s.len() ==> layout_wf(#[trigger] s[i])
}

/// The texts the renderer will lay out for the pairing of `items` with
/// `slots`, from item `k` on, in rendering order: for a text item its
/// string and its slot's box; for a nested template the requests of its
/// own pairing, inline; nothing for an image. Items beyond the slot count
/// request nothing.
pub open spec fn spec_requests(items: Seq<MemeContent>, slots: Seq<MemeText>, k: int) -> Seq<
    (Seq<char>, int, int),
>
    decreases items, items.len() - k,
{
    if k < 0 || k >= items.len() || k >= slots.len() {
        Seq::empty()
    } else {
        let own: Seq<(Seq<char>, int, int)> = match items[k] {
            MemeContent::Text(s) => seq![(s@, slot_w(slots[k]), slot_h(slots[k]))],
            MemeContent::Meme(sub, subs) => spec_requests(subs@, sub.config.text@, 0),
            MemeContent::Image(_) => Seq::empty(),
        };
        own + spec_requests(items, slots, k + 1)
    }
}

/// List the texts that rendering `items` into `slots` will need laid out,
/// in the order the renderer consumes them, with each text's box.
pub fn layout_requests(items: &Vec<MemeContent>, slots: &Vec<MemeText>) -> (r: Vec<LayoutRequest>)
    ensures
        r@.len() == spec_requests(items@, slots@, 0).len(),
        forall|j: int|
            0 <= j < r@.len()
                ==> (#[trigger] r@[j]).text@ == spec_requests(items@, slots@, 0)[j].0
                && r@[j].box_w == spec_requests(items@, slots@, 0)[j].1
                && r@[j].box_h == spec_requests(items@, slots@, 0)[j].2,
    decreases items@,
{
    let ghost total = spec_requests(items@, slots@, 0);
    let mut out: Vec<LayoutRequest> = Vec::new();
    let ghost mut done: Seq<(Seq<char>, int, int)> = Seq::empty();
    let n = if items.len() <= slots.len() {
        items.len()
    } else {
        slots.len()
    };
    let mut k: usize = 0;
    proof {
        assert(done + spec_requests(items@, slots@, 0) =~= total);
    }
    while k < n
        invariant
            n <= items@.len(),
            n <= slots@.len(),
            n == items@.len() || n == slots@.len(),
            k <= n,
            total == spec_requests(items@, slots@, 0),
            done.len() == out@.len(),
            done + spec_requests(items@, slots@, k as int) == total,
            forall|j: int|
                0 <= j < out@.len()
                    ==> (#[trigger] out@[j]).text@ == done[j].0 && out@[j].box_w == done[j].1
                    && out@[j].box_h == done[j].2,
        decreases n - k,
    {
        let ghost rest = spec_requests(items@, slots@, k as int + 1);
        let ghost done0 = done;
        let slot = &slots[k];
        let bw = slot_width(slot);
        let bh = slot_height(slot);
        match &items[k] {
            MemeContent::Text(s) => {
                let ghost own = seq![(s@, slot_w(slots@[k as int]), slot_h(slots@[k as int]))];
                out.push(LayoutRequest { text: s.clone(), box_w: bw, box_h: bh });
                proof {
                    done = done.push((s@, bw as int, bh as int));
                    assert(done =~= done0 + own);
                }
            },
            MemeContent::Meme(sub, subs) => {
                let ghost own = spec_requests(subs@, sub.config.text@, 0);
                proof {
                    assert(decreases_to!(items@ => items@[k as int]));
                }
                let nested = layout_requests(subs, &sub.config.text);
                let ghost l0 = out@.len() as int;
                let mut j: usize = 0;
                while j < nested.len()
                    invariant
                        j <= nested@.len(),
                        out@.len() == l0 + j,
                        done.len() == out@.len(),
                        done == done0 + own.take(j as int),
                        nested@.len() == own.len(),
                        forall|j2: int|
                            0 <= j2 < nested@.len()
                                ==> (#[trigger] nested@[j2]).text@ == own[j2].0
                                && nested@[j2].box_w == own[j2].1 && nested@[j2].box_h
                                == own[j2].2,
                        forall|j2: int|
                            0 <= j2 < out@.len()
                                ==> (#[trigger] out@[j2]).text@ == done[j2].0 && out@[j2].box_w
                                == done[j2].1 && out@[j2].box_h == done[j2].2,
                    decreases nested@.len() - j,
                {
                    let nj = &nested[j];
                    out.push(LayoutRequest { text: nj.text.clone(), box_w: nj.box_w, box_h: nj.box_h });
                    proof {
                        done = done.push(own[j as int]);
                        assert(done =~= done0 + own.take(j as int + 1));
                    }
                    j = j + 1;
                }
                proof {
                    assert(own.take(own.len() as int) =~= own);
                }
            },
            MemeContent::Image(_) => {
                proof {
                    let ghost own: Seq<(Seq<char>, int, int)> = Seq::empty();
                    assert(done =~= done0 + own);
                }
            },
        }
        proof {
            let own = match items@[k as int] {
                MemeContent::Text(s) => seq![
                    (s@, slot_w(slots@[k as int]), slot_h(slots@[k as int])),
                ],
                MemeContent::Meme(sub, subs) => spec_requests(subs@, sub.config.text@, 0),
                MemeContent::Image(_) => Seq::empty(),
            };
            assert(spec_requests(items@, slots@, k as int) == own + rest);
            assert(done == done0 + own);
            assert(done + rest =~= done0 + (own + rest));
        }
        k = k + 1;
    }
    proof {
        assert(spec_requests(items@, slots@, k as int) =~= Seq::<(Seq<char>, int, int)>::empty());
        assert(done + spec_requests(items@, slots@, k as int) =~= done);
    }
    out
}


/// The buffer of width `w` after blending a laid-out block's glyphs onto
/// it with the block's top-left corner at `(ox, oy)`.
pub open spec fn sdraw(
    data: Seq<u8>,
    w: int,
    glyphs: Seq<PositionedGlyph>,
    color: Color,
    ox: int,
    oy: int,
) -> Seq<u8> {
    Seq::new(
        data.len(),
        |i: int|
            drawn_byte(
                data[i] as int, glyphs, color, ox, oy, px_of(w, i), py_of(w, i), pch_of(i),
            ) as u8,
    )
}

/// The buffer of width `w` after scaling a source buffer to fit a slot and
/// blitting it, centered, onto the buffer.
pub open spec fn sscale(
    data: Seq<u8>,
    w: int,
    src: Seq<u8>,
    sw: int,
    sh: int,
    sx0: int,
    sy0: int,
    slot_w: int,
    slot_h: int,
) -> Seq<u8> {
    Seq::new(
        data.len(),
        |i: int|
            sscaled_byte(
                data, w, src, sw, sh, sx0, sy0, slot_w, slot_h, px_of(w, i), py_of(w, i),
                pch_of(i),
            ),
    )
}

/// A raster whose bytes satisfy the glyph-drawing postcondition holds
/// exactly the buffer [`sdraw`] describes.
proof fn lemma_draw_bridge(
    prev: Raster,
    cur: Raster,
    glyphs: Seq<PositionedGlyph>,
    color: Color,
    ox: int,
    oy: int,
)
    requires
        prev.wf(),
        cur.wf(),
        cur.width == prev.width,
        cur.height == prev.height,
        forall|x: int, y: int, ch: int|
            0 <= x < prev.width && 0 <= y < prev.height && 0 <= ch < 4
                ==> cur.byte_at(x, y, ch)
                == #[trigger] drawn_byte(
                    prev.byte_at(x, y, ch) as int, glyphs, color, ox, oy, x, y, ch,
                ),
    ensures
        cur.data@ == sdraw(prev.data@, prev.width as int, glyphs, color, ox, oy),
{
    let w = prev.width as int;
    let h = prev.height as int;
    let target = sdraw(prev.data@, w, glyphs, color, ox, oy);
    assert forall|i: int| 0 <= i < cur.data@.len() implies cur.data@[i] == target[i] by {
        lemma_flat_index(w, h, i);
        let x = px_of(w, i);
        let y = py_of(w, i);
        let ch = pch_of(i);
        assert(cur.byte_at(x, y, ch)
            == drawn_byte(prev.byte_at(x, y, ch) as int, glyphs, color, ox, oy, x, y, ch));
    }
    assert(cur.data@ =~= target);
}

/// A raster whose bytes satisfy the scale-into-slot postcondition holds
/// exactly the buffer [`sscale`] describes.
proof fn lemma_scale_bridge(
    prev: Raster,
    cur: Raster,
    src: Seq<u8>,
    sw: int,
    sh: int,
    sx0: int,
    sy0: int,
    slot_w: int,
    slot_h: int,
)
    requires
        prev.wf(),
        cur.wf(),
        cur.width == prev.width,
        cur.height == prev.height,
        forall|x: int, y: int, ch: int|
            0 <= x < prev.width && 0 <= y < prev.height && 0 <= ch < 4
                ==> cur.byte_at(x, y, ch)
                == #[trigger] sscaled_byte(
                    prev.data@, prev.width as int, src, sw, sh, sx0, sy0, slot_w, slot_h, x, y, ch,
                ),
    ensures
        cur.data@ == sscale(prev.data@, prev.width as int, src, sw, sh, sx0, sy0, slot_w, slot_h),
{
    let w = prev.width as int;
    let h = prev.height as int;
    let target = sscale(prev.data@, w, src, sw, sh, sx0, sy0, slot_w, slot_h);
    assert forall|i: int| 0 <= i < cur.data@.len() implies cur.data@[i] == target[i] by {
        lemma_flat_index(w, h, i);
        let x = px_of(w, i);
        let y = py_of(w, i);
        let ch = pch_of(i);
        assert(cur.byte_at(x, y, ch)
            == sscaled_byte(prev.data@, w, src, sw, sh, sx0, sy0, slot_w, slot_h, x, y, ch));
    }
    assert(cur.data@ =~= target);
}

/// The buffer and the layout cursor after rendering the pairing of `items`
/// with `slots`, from item `k` on, onto a buffer of width `w`: a text item
/// blends its laid-out glyphs at its slot's top-left corner and consumes
/// one layout; a nested template renders recursively (with its own slots,
/// its own color and the same layout sequence) and the result is scaled to
/// fit the slot; an image item is scaled to fit the slot. Items beyond the
/// slot count, and text items beyond the layout sequence, change nothing.
pub open spec fn spec_render(
    data: Seq<u8>,
    w: int,
    items: Seq<MemeContent>,
    slots: Seq<MemeText>,
    layouts: Seq<TextLayout>,
    color: Color,
    k: int,
    cur: int,
) -> (Seq<u8>, int)
    decreases items, items.len() - k,
{
    if k < 0 || k >= items.len() || k >= slots.len() {
        (data, cur)
    } else {
        let slot = slots[k];
        let step: (Seq<u8>, int) = match items[k] {
            MemeContent::Text(_) => if 0 <= cur < layouts.len() {
                (
                    sdraw(
                        data, w, layouts[cur].glyphs@, color, slot.min.0 as int, slot.min.1 as int,
                    ),
                    cur + 1,
                )
            } else {
                (data, cur)
            },
            MemeContent::Meme(sub, subs) => {
                let sub_r = spec_render(
                    sub.image.data@, sub.image.width as int, subs@, sub.config.text@, layouts,
                    effective_color(sub.config), 0, cur,
                );
                (
                    sscale(
                        data, w, sub_r.0, sub.image.width as int, sub.image.height as int,
                        slot.min.0 as int, slot.min.1 as int, slot_w(slot), slot_h(slot),
                    ),
                    sub_r.1,
                )
            },
            MemeContent::Image(img) => (
                sscale(
                    data, w, img.data@, img.width as int, img.height as int, slot.min.0 as int,
                    slot.min.1 as int, slot_w(slot), slot_h(slot),
                ),
                cur,
            ),
        };
        spec_render(step.0, w, items, slots, layouts, color, k + 1, step.1)
    }
}

/// Rendering consumes exactly one text layout per listed request, in
/// order: with at least as many layouts from the cursor on as there are
/// requests, the cursor ends exactly one past the last consumed layout.
/// Layouts built from [`layout_requests`] therefore line up one to one
/// with the texts the renderer draws.
pub proof fn lemma_render_consumes_requests(
    data: Seq<u8>,
    w: int,
    items: Seq<MemeContent>,
    slots: Seq<MemeText>,
    layouts: Seq<TextLayout>,
    color: Color,
    k: int,
    cur: int,
)
    requires
        0 <= cur,
        cur + spec_requests(items, slots, k).len() <= layouts.len(),
    ensures
        spec_render(data, w, items, slots, layouts, color, k, cur).1 == cur + spec_requests(
            items, slots, k,
        ).len(),
    decreases items, items.len() - k,
{
    if k < 0 || k >= items.len() || k >= slots.len() {
    } else {
        let rest = spec_requests(items, slots, k + 1);
        match items[k] {
            MemeContent::Text(_) => {
                let own: Seq<(Seq<char>, int, int)> = seq![
                    (items[k]->Text_0@, slot_w(slots[k]), slot_h(slots[k])),
                ];
                assert(spec_requests(items, slots, k) == own + rest);
                lemma_render_consumes_requests(
                    sdraw(
                        data, w, layouts[cur].glyphs@, color, slots[k].min.0 as int,
                        slots[k].min.1 as int,
                    ),
                    w, items, slots, layouts, color, k + 1, cur + 1,
                );
            },
            MemeContent::Meme(sub, subs) => {
                let own = spec_requests(subs@, sub.config.text@, 0);
                assert(spec_requests(items, slots, k) == own + rest);
                lemma_render_consumes_requests(
                    sub.image.data@, sub.image.width as int, subs@, sub.config.text@, layouts,
                    effective_color(sub.config), 0, cur,
                );
                let sub_r = spec_render(
                    sub.image.data@, sub.image.width as int, subs@, sub.config.text@, layouts,
                    effective_color(sub.config), 0, cur,
                );
                lemma_render_consumes_requests(
                    sscale(
                        data, w, sub_r.0, sub.image.width as int, sub.image.height as int,
                        slots[k].min.0 as int, slots[k].min.1 as int, slot_w(slots[k]),
                        slot_h(slots[k]),
                    ),
                    w, items, slots, layouts, color, k + 1, sub_r.1,
                );
            },
            MemeContent::Image(img) => {
                let own: Seq<(Seq<char>, int, int)> = Seq::empty();
                assert(spec_requests(items, slots, k) == own + rest);
                lemma_render_consumes_requests(
                    sscale(
                        data, w, img.data@, img.width as int, img.height as int,
                        slots[k].min.0 as int, slots[k].min.1 as int, slot_w(slots[k]),
                        slot_h(slots[k]),
                    ),
                    w, items, slots, layouts, color, k + 1, cur,
                );
            },
        }
    }
}

/// The color text is drawn with: the configured one, or opaque black.
pub fn color_of(c: &MemeConfig) -> (col: Color)
    ensures
        col == effective_color(*c),
{
    match c.color {
        Some(col) => col,
        None => Color { r: 0, g: 0, b: 0, a: 255 },
    }
}

/// Render the pairing of `items` with `slots` onto `base`, consuming text
/// layouts from `layouts` starting at `cur0`, in rendering order. Returns
/// the cursor after the layouts this call consumed.
pub fn render_onto(
    base: &mut Raster,
    items: &Vec<MemeContent>,
    slots: &Vec<MemeText>,
    layouts: &Vec<TextLayout>,
    color: Color,
    cur0: usize,
) -> (cur: usize)
    requires
        old(base).wf(),
        contents_wf(items@),
        layouts_wf(layouts@),
        cur0 <= layouts@.len(),
    ensures
        final(base).wf(),
        final(base).width == old(base).width,
        final(base).height == old(base).height,
        (final(base).data@, cur as int) == spec_render(
            old(base).data@, old(base).width as int, items@, slots@, layouts@, color, 0,
            cur0 as int,
        ),
        cur <= layouts@.len(),
    decreases items@,
{
    let ghost goal = spec_render(
        old(base).data@, old(base).width as int, items@, slots@, layouts@, color, 0, cur0 as int,
    );
    let w = base.width;
    let h = base.height;
    let mut cur = cur0;
    let n = if items.len() <= slots.len() {
        items.len()
    } else {
        slots.len()
    };
    let mut k: usize = 0;
    while k < n
        invariant
            base.wf(),
            base.width == w == old(base).width,
            base.height == h == old(base).height,
            contents_wf(items@),
            layouts_wf(layouts@),
            cur <= layouts@.len(),
            k <= n,
            n <= items@.len(),
            n <= slots@.len(),
            n == items@.len() || n == slots@.len(),
            spec_render(base.data@, w as int, items@, slots@, layouts@, color, k as int, cur as int)
                == goal,
        decreases n - k,
    {
        let ghost data_pre = base.data@;
        let ghost cur_pre = cur as int;
        let ghost prev = *base;
        let slot = &slots[k];
        let sx = slot.min.0;
        let sy = slot.min.1;
        let bw = slot_width(slot);
        let bh = slot_height(slot);
        match &items[k] {
            MemeContent::Text(_) => {
                if cur < layouts.len() {
                    let l = &layouts[cur];
                    draw_glyphs(base, &l.glyphs, color, sx, sy);
                    proof {
                        lemma_draw_bridge(
                            prev, *base, layouts@[cur as int].glyphs@, color, sx as int, sy as int,
                        );
                    }
                    cur = cur + 1;
                }
            },
            MemeContent::Meme(sub, subs) => {
                proof {
                    lemma_contents_wf_index(items@, k as int);
                    assert(decreases_to!(items@ => items@[k as int]));
                }
                let mut sub_img = copy_raster(&sub.image);
                let sub_color = color_of(&sub.config);
                let c2 = render_onto(&mut sub_img, subs, &sub.config.text, layouts, sub_color, cur);
                cur = c2;
                proof {
                    assert(sx + bw <= u32::MAX && sy + bh <= u32::MAX);
                }
                scale_into_slot(base, &sub_img, sx, sy, bw, bh);
                proof {
                    assert forall|x: int, y: int, ch: int|
                        0 <= x < prev.width && 0 <= y < prev.height && 0 <= ch < 4
                            implies base.byte_at(x, y, ch)
                            == #[trigger] sscaled_byte(
                                prev.data@, prev.width as int, sub_img.data@,
                                sub.image.width as int, sub.image.height as int, sx as int,
                                sy as int, bw as int, bh as int, x, y, ch,
                            ) by {
                        assert(base.byte_at(x, y, ch)
                            == scaled_into_byte(
                                prev, sub_img, sx as int, sy as int, bw as int, bh as int, x, y, ch,
                            ));
                    }
                    lemma_scale_bridge(
                        prev, *base, sub_img.data@, sub.image.width as int, sub.image.height as int,
                        sx as int, sy as int, bw as int, bh as int,
                    );
                }
            },
            MemeContent::Image(img) => {
                proof {
                    lemma_contents_wf_index(items@, k as int);
                    assert(sx + bw <= u32::MAX && sy + bh <= u32::MAX);
                }
                scale_into_slot(base, img, sx, sy, bw, bh);
                proof {
                    assert forall|x: int, y: int, ch: int|
                        0 <= x < prev.width && 0 <= y < prev.height && 0 <= ch < 4
                            implies base.byte_at(x, y, ch)
                            == #[trigger] sscaled_byte(
                                prev.data@, prev.width as int, img.data@, img.width as int,
                                img.height as int, sx as int, sy as int, bw as int, bh as int,
                                x, y, ch,
                            ) by {
                        assert(base.byte_at(x, y, ch)
                            == scaled_into_byte(
                                prev, *img, sx as int, sy as int, bw as int, bh as int, x, y, ch,
                            ));
                    }
                    lemma_scale_bridge(
                        prev, *base, img.data@, img.width as int, img.height as int, sx as int,
                        sy as int, bw as int, bh as int,
                    );
                }
            },
        }
        proof {
            assert(spec_render(
                base.data@, w as int, items@, slots@, layouts@, color, k as int + 1, cur as int,
            ) == spec_render(data_pre, w as int, items@, slots@, layouts@, color, k as int, cur_pre));
        }
        k = k + 1;
    }
    cur
}

/// The watermark's font size in quarter-pixel units: the image's shorter
/// dimension divided by the size fraction (a larger fraction gives smaller
/// text), saturating at the largest representable size.
pub open spec fn spec_watermark_size_q(w: int, h: int, frac_q: int) -> int {
    let shorter: int = if w <= h {
        w
    } else {
        h
    };
    let q = 16 * shorter / frac_q;
    if q <= u32::MAX {
        q
    } else {
        u32::MAX as int
    }
}

/// The watermark's font size for an image of the given dimensions, given
/// the size fraction in quarter units.
pub fn watermark_size_q(w: u32, h: u32, frac_q: u32) -> (r: u32)
    requires
        1 <= frac_q,
    ensures
        r == spec_watermark_size_q(w as int, h as int, frac_q as int),
{
    let shorter = if w <= h {
        w
    } else {
        h
    };
    let q = 16 * (shorter as u64) / (frac_q as u64);
    if q <= u32::MAX as u64 {
        q as u32
    } else {
        u32::MAX
    }
}

/// A font size in whole pixels, rounded up, from quarter-pixel units.
pub open spec fn ceil_px(q: int) -> int {
    (q + 3) / 4
}

/// The top of the watermark strip: one rounded-up font size above the
/// image's bottom edge, or the top edge for an image shorter than that.
pub open spec fn spec_watermark_y(h: int, size_q: int) -> int {
    if ceil_px(size_q) <= h {
        h - ceil_px(size_q)
    } else {
        0
    }
}

/// The y pixel at which the watermark strip is drawn.
pub fn watermark_y(h: u32, size_q: u32) -> (r: u32)
    ensures
        r == spec_watermark_y(h as int, size_q as int),
{
    let c = ((size_q as u64) + 3) / 4;
    if c <= h as u64 {
        h - (c as u32)
    } else {
        0
    }
}

/// The finished buffer of one frame: the content items rendered into the
/// configured slots, then, if a watermark layout is given, its glyphs
/// blended along the image's bottom-left edge in the same color.
pub open spec fn spec_render_frame(
    frame: Raster,
    config: MemeConfig,
    items: Seq<MemeContent>,
    layouts: Seq<TextLayout>,
    watermark: Option<TextLayout>,
    watermark_size_q: int,
) -> Seq<u8> {
    let color = effective_color(config);
    let rendered = spec_render(
        frame.data@, frame.width as int, items, config.text@, layouts, color, 0, 0,
    ).0;
    match watermark {
        None => rendered,
        Some(wl) => sdraw(
            rendered, frame.width as int, wl.glyphs@, color, 0,
            spec_watermark_y(frame.height as int, watermark_size_q),
        ),
    }
}

/// Render the items into one frame, consuming layouts from the start, and
/// draw the watermark when one is given.
fn render_frame(
    frame: &mut Raster,
    config: &MemeConfig,
    items: &Vec<MemeContent>,
    layouts: &Vec<TextLayout>,
    watermark: Option<&TextLayout>,
    watermark_size_q: u32,
)
    requires
        old(frame).wf(),
        contents_wf(items@),
        layouts_wf(layouts@),
        watermark matches Some(wl) ==> layout_wf(*wl),
    ensures
        final(frame).wf(),
        final(frame).width == old(frame).width,
        final(frame).height == old(frame).height,
        final(frame).data@ == spec_render_frame(
            *old(frame), *config, items@, layouts@,
            match watermark {
                Some(wl) => Some(*wl),
                None => None,
            },
            watermark_size_q as int,
        ),
{
    let color = color_of(config);
    render_onto(frame, items, &config.text, layouts, color, 0);
    match watermark {
        Some(wl) => {
            let ghost prev = *frame;
            let oy = watermark_y(frame.height, watermark_size_q);
            draw_glyphs(frame, &wl.glyphs, color, 0, oy);
            proof {
                lemma_draw_bridge(prev, *frame, wl.glyphs@, color, 0, oy as int);
            }
        },
        None => {
        },
    }
}

/// Every raster of the template is well formed.
pub open spec fn template_wf(t: MemeTemplate) -> bool {
    match t {
        MemeTemplate::Simple(s) => s.image.wf(),
        MemeTemplate::Animated(a) => forall|i: int|
            0 <= i < a.frames@.len() ==> (#[trigger] a.frames@[i]).wf(),
    }
}

impl SimpleMemeTemplate {
    /// Render the content items into this template's slots, in order, and
    /// draw the watermark when one is given. Text layouts are consumed in
    /// the order [`layout_requests`] lists them.
    pub fn render(
        self,
        items: &Vec<MemeContent>,
        layouts: &Vec<TextLayout>,
        watermark: Option<&TextLayout>,
        watermark_size_q: u32,
    ) -> (out: Raster)
        requires
            self.image.wf(),
            contents_wf(items@),
            layouts_wf(layouts@),
            watermark matches Some(wl) ==> layout_wf(*wl),
        ensures
            out.wf(),
            out.width == self.image.width,
            out.height == self.image.height,
            out.data@ == spec_render_frame(
                self.image, self.config, items@, layouts@,
                match watermark {
                    Some(wl) => Some(*wl),
                    None => None,
                },
                watermark_size_q as int,
            ),
    {
        let SimpleMemeTemplate { image: mut img, config } = self;
        render_frame(&mut img, &config, items, layouts, watermark, watermark_size_q);
        img
    }
}

impl AnimatedMemeTemplate {
    /// Render the content items into every frame identically: the text
    /// layouts were computed once and the same ones are consumed, from the
    /// start, for each frame.
    pub fn render(
        self,
        items: &Vec<MemeContent>,
        layouts: &Vec<TextLayout>,
        watermark: Option<&TextLayout>,
        watermark_size_q: u32,
    ) -> (out: Vec<Raster>)
        requires
            forall|i: int| 0 <= i < self.frames@.len() ==> (#[trigger] self.frames@[i]).wf(),
            contents_wf(items@),
            layouts_wf(layouts@),
            watermark matches Some(wl) ==> layout_wf(*wl),
        ensures
            out@.len() == self.frames@.len(),
            forall|i: int|
                0 <= i < out@.len() ==> (#[trigger] out@[i]).wf() && out@[i].width
                    == self.frames@[i].width && out@[i].height == self.frames@[i].height
                    && out@[i].data@ == spec_render_frame(
                    self.frames@[i], self.config, items@, layouts@,
                    match watermark {
                        Some(wl) => Some(*wl),
                        None => None,
                    },
                    watermark_size_q as int,
                ),
    {
        let AnimatedMemeTemplate { frames, config } = self;
        let mut out: Vec<Raster> = Vec::new();
        let mut i: usize = 0;
        while i < frames.len()
            invariant
                i <= frames@.len(),
                out@.len() == i,
                contents_wf(items@),
                layouts_wf(layouts@),
                watermark matches Some(wl) ==> layout_wf(*wl),
                forall|j: int| 0 <= j < frames@.len() ==> (#[trigger] frames@[j]).wf(),
                forall|j: int|
                    0 <= j < i ==> (#[trigger] out@[j]).wf() && out@[j].width == frames@[j].width
                        && out@[j].height == frames@[j].height && out@[j].data@
                        == spec_render_frame(
                        frames@[j], config, items@, layouts@,
                        match watermark {
                            Some(wl) => Some(*wl),
                            None => None,
                        },
                        watermark_size_q as int,
                    ),
            decreases frames@.len() - i,
        {
            let mut frame = copy_raster(&frames[i]);
            render_frame(&mut frame, &config, items, layouts, watermark, watermark_size_q);
            out.push(frame);
            i = i + 1;
        }
        out
    }
}

impl MemeTemplate {
    /// Render either kind of template: one raster for a static template,
    /// one raster per frame for an animated one, the text layouts shared
    /// by all frames.
    pub fn render(
        self,
        items: &Vec<MemeContent>,
        layouts: &Vec<TextLayout>,
        watermark: Option<&TextLayout>,
        watermark_size_q: u32,
    ) -> (out: RenderedMeme)
        requires
            template_wf(self),
            contents_wf(items@),
            layouts_wf(layouts@),
            watermark matches Some(wl) ==> layout_wf(*wl),
        ensures
            match self {
                MemeTemplate::Simple(t) => out matches RenderedMeme::Simple(img) && img.wf()
                    && img.width == t.image.width && img.height == t.image.height && img.data@
                    == spec_render_frame(
                    t.image, t.config, items@, layouts@,
                    match watermark {
                        Some(wl) => Some(*wl),
                        None => None,
                    },
                    watermark_size_q as int,
                ),
                MemeTemplate::Animated(t) => out matches RenderedMeme::Animated(frames)
                    && frames@.len() == t.frames@.len() && forall|i: int|
                    0 <= i < frames@.len() ==> (#[trigger] frames@[i]).wf() && frames@[i].data@
                        == spec_render_frame(
                        t.frames@[i], t.config, items@, layouts@,
                        match watermark {
                            Some(wl) => Some(*wl),
                            None => None,
                        },
                        watermark_size_q as int,
                    ),
            },
    {
        match self {
            MemeTemplate::Simple(t) => RenderedMeme::Simple(
                t.render(items, layouts, watermark, watermark_size_q),
            ),
            MemeTemplate::Animated(t) => RenderedMeme::Animated(
                t.render(items, layouts, watermark, watermark_size_q),
            ),
        }
    }
}
} // verus!
