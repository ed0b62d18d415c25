use memeinator::glyphs::PositionedGlyph;
use memeinator::raster::{Color, Mask, Raster};
use memeinator::template::{
    layout_requests, watermark_size_q, watermark_y, AnimatedMemeTemplate, MemeConfig, MemeContent,
    MemeTemplate, MemeText, RenderedMeme, SimpleMemeTemplate, TextLayout,
};

fn solid(w: u32, h: u32, rgba: [u8; 4]) -> Raster {
    let mut data = Vec::with_capacity((w * h * 4) as usize);
    for _ in 0..(w * h) {
        data.extend_from_slice(&rgba);
    }
    Raster { width: w, height: h, data }
}

fn pixel(r: &Raster, x: u32, y: u32) -> [u8; 4] {
    let i = ((y * r.width + x) * 4) as usize;
    [r.data[i], r.data[i + 1], r.data[i + 2], r.data[i + 3]]
}

/// A fully opaque block glyph, standing in for a rasterized character.
fn block_glyph(x: u32, y: u32, w: u32, h: u32) -> PositionedGlyph {
    PositionedGlyph {
        x,
        y,
        mask: Mask { width: w, height: h, data: vec![255; (w * h) as usize] },
        is_control: false,
    }
}

#[test]
fn requests_pair_texts_with_slot_boxes() {
    let items = vec![
        MemeContent::Text("HI".to_string()),
        MemeContent::Image(solid(2, 2, [0, 0, 0, 255])),
        MemeContent::Text("yo".to_string()),
    ];
    let slots = vec![
        MemeText { min: (10, 10), max: (110, 60) },
        MemeText { min: (0, 0), max: (5, 5) },
        MemeText { min: (1, 2), max: (4, 8) },
    ];
    let reqs = layout_requests(&items, &slots);
    assert_eq!(reqs.len(), 2);
    assert_eq!(reqs[0].text, "HI");
    assert_eq!((reqs[0].box_w, reqs[0].box_h), (100, 50));
    assert_eq!(reqs[1].text, "yo");
    assert_eq!((reqs[1].box_w, reqs[1].box_h), (3, 6));
}

#[test]
fn requests_of_nested_template_come_inline() {
    let inner = SimpleMemeTemplate {
        image: solid(20, 20, [255, 0, 0, 255]),
        config: MemeConfig {
            color: None,
            text: vec![MemeText { min: (0, 0), max: (20, 20) }],
        },
    };
    let items = vec![
        MemeContent::Meme(Box::new(inner), vec![MemeContent::Text("x".to_string())]),
        MemeContent::Text("after".to_string()),
    ];
    let slots = vec![
        MemeText { min: (0, 0), max: (50, 50) },
        MemeText { min: (0, 50), max: (50, 60) },
    ];
    let reqs = layout_requests(&items, &slots);
    assert_eq!(reqs.len(), 2);
    assert_eq!(reqs[0].text, "x");
    assert_eq!((reqs[0].box_w, reqs[0].box_h), (20, 20));
    assert_eq!(reqs[1].text, "after");
}

#[test]
fn extra_items_beyond_slots_are_ignored() {
    let items = vec![
        MemeContent::Text("a".to_string()),
        MemeContent::Text("b".to_string()),
    ];
    let slots = vec![MemeText { min: (0, 0), max: (4, 4) }];
    let reqs = layout_requests(&items, &slots);
    assert_eq!(reqs.len(), 1);
    assert_eq!(reqs[0].text, "a");
}

#[test]
fn text_renders_black_pixels_only_inside_its_slot() {
    // a 200x100 blank white template with one 100x50 slot at (10, 10):
    // the rendered text's ink must stay inside the slot's rectangle
    let template = SimpleMemeTemplate {
        image: solid(200, 100, [255, 255, 255, 255]),
        config: MemeConfig {
            color: Some(Color { r: 0, g: 0, b: 0, a: 255 }),
            text: vec![MemeText { min: (10, 10), max: (110, 60) }],
        },
    };
    let items = vec![MemeContent::Text("HI".to_string())];
    // two block glyphs inside the 100x50 box, as a fit at some size
    // at most 600 px would produce for a short text
    let layouts = vec![TextLayout {
        glyphs: vec![block_glyph(20, 5, 25, 40), block_glyph(55, 5, 25, 40)],
    }];
    let out = template.render(&items, &layouts, None, 0);
    assert_eq!((out.width, out.height), (200, 100));
    for y in 0..100u32 {
        for x in 0..200u32 {
            let p = pixel(&out, x, y);
            let inside = (10..110).contains(&x) && (10..60).contains(&y);
            if !inside {
                assert_eq!(p, [255, 255, 255, 255], "ink outside the slot at ({}, {})", x, y);
            }
        }
    }
    // the glyph areas are black
    assert_eq!(pixel(&out, 30, 20), [0, 0, 0, 255]);
    assert_eq!(pixel(&out, 65, 20), [0, 0, 0, 255]);
    // uncovered box area keeps the base
    assert_eq!(pixel(&out, 12, 12), [255, 255, 255, 255]);
}

#[test]
fn nested_template_renders_then_scales_into_slot() {
    // template A has one 50x50 slot; its content is template B, a 20x20
    // solid red image with one text slot, whose text is drawn before the
    // 2.5x scale is applied
    let b = SimpleMemeTemplate {
        image: solid(20, 20, [255, 0, 0, 255]),
        config: MemeConfig {
            color: None,
            text: vec![MemeText { min: (0, 0), max: (20, 20) }],
        },
    };
    let a = SimpleMemeTemplate {
        image: solid(50, 50, [255, 255, 255, 255]),
        config: MemeConfig {
            color: None,
            text: vec![MemeText { min: (0, 0), max: (50, 50) }],
        },
    };
    let items = vec![MemeContent::Meme(
        Box::new(b),
        vec![MemeContent::Text("x".to_string())],
    )];
    // the nested text: a black 4x4 block at B's top-left corner
    let layouts = vec![TextLayout { glyphs: vec![block_glyph(0, 0, 4, 4)] }];
    let out = a.render(&items, &layouts, None, 0);
    // B fills A's square slot at 2.5x: red everywhere but the scaled-up
    // black block at the top-left
    assert_eq!(pixel(&out, 0, 0), [0, 0, 0, 255]);
    assert_eq!(pixel(&out, 49, 49), [255, 0, 0, 255]);
    assert_eq!(pixel(&out, 25, 25), [255, 0, 0, 255]);
    assert_eq!(pixel(&out, 49, 0), [255, 0, 0, 255]);
}

#[test]
fn image_content_is_scaled_and_centered() {
    let tpl = SimpleMemeTemplate {
        image: solid(10, 10, [255, 255, 255, 255]),
        config: MemeConfig {
            color: None,
            text: vec![MemeText { min: (1, 1), max: (9, 9) }],
        },
    };
    let items = vec![MemeContent::Image(solid(2, 2, [0, 200, 0, 255]))];
    let out = tpl.render(&items, &vec![], None, 0);
    assert_eq!(pixel(&out, 0, 0), [255, 255, 255, 255]);
    assert_eq!(pixel(&out, 4, 4), [0, 200, 0, 255]);
    assert_eq!(pixel(&out, 1, 1), [0, 200, 0, 255]);
}

#[test]
fn watermark_size_and_position_formulas() {
    // shorter dimension 100, fraction 30.0 (120 quarter units):
    // 16 * 100 / 120 = 13 quarter units, ceil(13 / 4) = 4 pixels
    assert_eq!(watermark_size_q(200, 100, 120), 13);
    assert_eq!(watermark_y(100, 13), 96);
    // an image shorter than the watermark strip pins the strip to the top
    assert_eq!(watermark_y(2, 13), 0);
}

#[test]
fn watermark_glyphs_are_drawn_at_bottom_left() {
    let tpl = SimpleMemeTemplate {
        image: solid(20, 10, [255, 255, 255, 255]),
        config: MemeConfig { color: None, text: vec![] },
    };
    let wm = TextLayout { glyphs: vec![block_glyph(0, 0, 3, 2)] };
    // watermark size of 8 quarter units: strip starts at 10 - 2 = 8
    let out = tpl.render(&vec![], &vec![], Some(&wm), 8);
    assert_eq!(pixel(&out, 0, 8), [0, 0, 0, 255]);
    assert_eq!(pixel(&out, 2, 9), [0, 0, 0, 255]);
    assert_eq!(pixel(&out, 3, 9), [255, 255, 255, 255]);
    assert_eq!(pixel(&out, 0, 7), [255, 255, 255, 255]);
}

#[test]
fn animated_template_renders_every_frame_identically() {
    let frames = vec![solid(10, 10, [255, 255, 255, 255]), solid(10, 10, [0, 0, 255, 255])];
    let tpl = AnimatedMemeTemplate {
        frames,
        config: MemeConfig {
            color: Some(Color { r: 0, g: 0, b: 0, a: 255 }),
            text: vec![MemeText { min: (0, 0), max: (10, 10) }],
        },
    };
    let items = vec![MemeContent::Text("x".to_string())];
    let layouts = vec![TextLayout { glyphs: vec![block_glyph(1, 1, 2, 2)] }];
    let out = tpl.render(&items, &layouts, None, 0);
    assert_eq!(out.len(), 2);
    for frame in &out {
        assert_eq!(pixel(frame, 1, 1), [0, 0, 0, 255]);
        assert_eq!(pixel(frame, 2, 2), [0, 0, 0, 255]);
    }
    assert_eq!(pixel(&out[0], 5, 5), [255, 255, 255, 255]);
    assert_eq!(pixel(&out[1], 5, 5), [0, 0, 255, 255]);
}

#[test]
fn template_dispatch_matches_kind() {
    let simple = MemeTemplate::Simple(SimpleMemeTemplate {
        image: solid(4, 4, [1, 1, 1, 255]),
        config: MemeConfig { color: None, text: vec![] },
    });
    match simple.render(&vec![], &vec![], None, 0) {
        RenderedMeme::Simple(img) => assert_eq!((img.width, img.height), (4, 4)),
        RenderedMeme::Animated(_) => panic!("static template rendered as animated"),
    }
    let animated = MemeTemplate::Animated(AnimatedMemeTemplate {
        frames: vec![solid(4, 4, [1, 1, 1, 255])],
        config: MemeConfig { color: None, text: vec![] },
    });
    match animated.render(&vec![], &vec![], None, 0) {
        RenderedMeme::Simple(_) => panic!("animated template rendered as static"),
        RenderedMeme::Animated(frames) => assert_eq!(frames.len(), 1),
    }
}

#[test]
fn control_glyphs_leave_no_ink() {
    let tpl = SimpleMemeTemplate {
        image: solid(6, 6, [255, 255, 255, 255]),
        config: MemeConfig {
            color: None,
            text: vec![MemeText { min: (0, 0), max: (6, 6) }],
        },
    };
    let mut g = block_glyph(0, 0, 6, 6);
    g.is_control = true;
    let layouts = vec![TextLayout { glyphs: vec![g] }];
    let items = vec![MemeContent::Text("\n".to_string())];
    let out = tpl.render(&items, &layouts, None, 0);
    assert_eq!(pixel(&out, 3, 3), [255, 255, 255, 255]);
}

#[test]
fn missing_layouts_render_no_text() {
    let tpl = SimpleMemeTemplate {
        image: solid(6, 6, [9, 9, 9, 9]),
        config: MemeConfig {
            color: None,
            text: vec![MemeText { min: (0, 0), max: (6, 6) }],
        },
    };
    let items = vec![MemeContent::Text("x".to_string())];
    let out = tpl.render(&items, &vec![], None, 0);
    assert_eq!(out.data, vec![9u8; 6 * 6 * 4]);
}

#[test]
fn layouts_are_consumed_depth_first_in_request_order() {
    // item 0 is a nested template with one text; item 1 is a sibling
    // text: the nested text consumes the first layout, the sibling the
    // second, exactly as layout_requests lists them
    let inner = SimpleMemeTemplate {
        image: solid(4, 4, [255, 0, 0, 255]),
        config: MemeConfig {
            color: Some(Color { r: 0, g: 255, b: 0, a: 255 }),
            text: vec![MemeText { min: (0, 0), max: (4, 4) }],
        },
    };
    let outer = SimpleMemeTemplate {
        image: solid(12, 4, [255, 255, 255, 255]),
        config: MemeConfig {
            color: Some(Color { r: 0, g: 0, b: 255, a: 255 }),
            text: vec![
                MemeText { min: (0, 0), max: (4, 4) },
                MemeText { min: (8, 0), max: (12, 4) },
            ],
        },
    };
    let items = vec![
        MemeContent::Meme(Box::new(inner), vec![MemeContent::Text("in".to_string())]),
        MemeContent::Text("out".to_string()),
    ];
    let reqs = layout_requests(&items, &outer.config.text);
    assert_eq!(reqs.len(), 2);
    assert_eq!(reqs[0].text, "in");
    assert_eq!(reqs[1].text, "out");
    // first layout: a 2x2 block at the nested template's top-left;
    // second layout: a 2x2 block in the sibling slot
    let layouts = vec![
        TextLayout { glyphs: vec![block_glyph(0, 0, 2, 2)] },
        TextLayout { glyphs: vec![block_glyph(1, 1, 2, 2)] },
    ];
    let out = outer.render(&items, &layouts, None, 0);
    // the nested text was drawn in green (inner color) before scaling
    assert_eq!(pixel(&out, 0, 0), [0, 255, 0, 255]);
    // the rest of the nested render stayed red
    assert_eq!(pixel(&out, 3, 3), [255, 0, 0, 255]);
    // the sibling text was drawn in blue (outer color) in its own slot
    assert_eq!(pixel(&out, 9, 1), [0, 0, 255, 255]);
    // the gap between the slots is untouched
    assert_eq!(pixel(&out, 6, 2), [255, 255, 255, 255]);
}
