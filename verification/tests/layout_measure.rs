//! Layout and measurement against a fixed deterministic metrics stub, so
//! line boundaries and pixel extents are exact.

use imagetext::layout::FontRef;
use imagetext::metrics::{FontMetrics, GlyphMetrics, KernPair, Scale, SuperFont};
use imagetext::measure::{
    parsed_text_width_with_emojis, text_size, text_size_multiline, text_width,
};
use imagetext::outline::{split_emojis, translate_path, PathCmd};
use imagetext::source::EmojiOptions;
use imagetext::token::EmojiType;

/// One glyph covering `c`: advance 10 units, box from the pen to the
/// advance, 8 units tall above the baseline.
fn letter(c: char, id: u32) -> GlyphMetrics {
    GlyphMetrics {
        ch: c,
        id,
        advance: 10,
        has_bb: true,
        bb_x0: 0,
        bb_y0: -8,
        bb_x1: 10,
        bb_y1: 0,
    }
}

fn space(id: u32) -> GlyphMetrics {
    GlyphMetrics {
        ch: ' ',
        id,
        advance: 10,
        has_bb: false,
        bb_x0: 0,
        bb_y0: 0,
        bb_x1: 0,
        bb_y1: 0,
    }
}

fn notdef() -> GlyphMetrics {
    GlyphMetrics {
        ch: ' ',
        id: 0,
        advance: 10,
        has_bb: false,
        bb_x0: 0,
        bb_y0: 0,
        bb_x1: 0,
        bb_y1: 0,
    }
}

/// Ten units of advance for every lower-case letter and the space.
fn stub_metrics(kerning: Vec<KernPair>) -> FontMetrics {
    let mut glyphs = Vec::new();
    let mut id = 1;
    for c in "abcdefghijklmnopqrstuvwxyz".chars() {
        glyphs.push(letter(c, id));
        id += 1;
    }
    glyphs.push(space(id));
    FontMetrics { glyphs, kerning, notdef: notdef(), ascent: 8 }
}

/// An emoji-substitute font whose placeholder glyph is 16 units wide.
fn stub_emoji_font() -> FontMetrics {
    let glyphs = vec![GlyphMetrics {
        ch: '😀',
        id: 900,
        advance: 16,
        has_bb: true,
        bb_x0: 0,
        bb_y0: -8,
        bb_x1: 16,
        bb_y1: 0,
    }];
    FontMetrics { glyphs, kerning: Vec::new(), notdef: notdef(), ascent: 8 }
}

fn stub_font() -> SuperFont {
    SuperFont::new(stub_metrics(Vec::new()), Vec::new(), stub_emoji_font())
}

#[test]
fn width_counts_advances() {
    let f = stub_font();
    assert_eq!(text_width(Scale::uniform(1), &f, "the"), 30);
    assert_eq!(text_width(Scale::uniform(1), &f, "the quick"), 90);
    assert_eq!(text_width(Scale::uniform(2), &f, "the"), 60);
}

#[test]
fn width_monotonic_in_scale() {
    let f = stub_font();
    let mut last = 0;
    for s in 1..6u32 {
        let w = text_width(Scale::uniform(s), &f, "monotone words");
        assert!(w >= last);
        last = w;
    }
}

#[test]
fn size_reports_ascent_height() {
    let f = stub_font();
    let (w, h) = text_size(Scale::uniform(1), &f, "abc");
    assert_eq!(w, 30);
    assert_eq!(h, 8);
    let (w2, h2) = text_size(Scale::uniform(3), &f, "abc");
    assert_eq!(w2, 90);
    assert_eq!(h2, 24);
}

#[test]
fn multiline_height_formula() {
    let f = stub_font();
    let lines = vec!["abc".to_string(), "de".to_string()];
    // Spacing 1.0: exactly two line heights.
    let (w, h) = text_size_multiline(&lines, &f, Scale::uniform(1), 1000);
    assert_eq!(w, 30);
    assert_eq!(h, 2);
    // Spacing 1.5 leaves the first line's extra leading out.
    let (_, h) = text_size_multiline(&lines, &f, Scale::uniform(2), 1500);
    assert_eq!(h, (2 * 1500 - 1500 + 1000) * 2 / 1000);
}

#[test]
fn layout_positions_advance_left_to_right() {
    let f = stub_font();
    let glyphs = f.layout("ab", Scale::uniform(1), 0, 0);
    assert_eq!(glyphs.len(), 2);
    assert_eq!(glyphs[0].x, 0);
    assert_eq!(glyphs[1].x, 10);
    assert_eq!(glyphs[0].font, FontRef::Main);
}

#[test]
fn kerning_moves_the_pen() {
    let main = stub_metrics(vec![KernPair { left: 1, right: 2, kern: -3 }]);
    let f = SuperFont::new(main, Vec::new(), stub_emoji_font());
    // "ab": glyph ids 1 then 2, so the pair pulls b three units left.
    let glyphs = f.layout("ab", Scale::uniform(1), 0, 0);
    assert_eq!(glyphs[1].x, 7);
    assert_eq!(text_width(Scale::uniform(1), &f, "ab"), 17);
}

#[test]
fn fallback_font_resolves_missing_characters() {
    let mut fallback_glyphs = Vec::new();
    fallback_glyphs.push(letter('ø', 77));
    let fallback = FontMetrics {
        glyphs: fallback_glyphs,
        kerning: Vec::new(),
        notdef: notdef(),
        ascent: 8,
    };
    let f = SuperFont::new(stub_metrics(Vec::new()), vec![fallback], stub_emoji_font());
    let glyphs = f.layout("aø", Scale::uniform(1), 0, 0);
    assert_eq!(glyphs[0].font, FontRef::Main);
    assert_eq!(glyphs[1].font, FontRef::Fallback(0));
    assert_eq!(glyphs[1].glyph_id, 77);
}

#[test]
fn emoji_layout_consumes_in_order() {
    let f = stub_font();
    let emojis = vec![
        EmojiType::Regular("😈".to_string()),
        EmojiType::Discord(42),
    ];
    let mut idx = 0;
    let parsed = "a 😀 b 😀";
    let glyphs = f.layout_with_emojis(parsed, &emojis, &mut idx, Scale::uniform(1), 0, 0);
    assert_eq!(idx, 2);
    assert_eq!(glyphs.len(), parsed.chars().count());
    let tags: Vec<EmojiType> = glyphs
        .into_iter()
        .filter_map(|(_, tag)| tag)
        .collect();
    assert_eq!(tags, emojis);
}

#[test]
fn emoji_placeholder_uses_emoji_scale() {
    let mut f = stub_font();
    f.emoji_options = EmojiOptions::default();
    f.emoji_options.scale_milli = 2000;
    let w = parsed_text_width_with_emojis(Scale::uniform(1), &f, "😀");
    // The 16-unit placeholder is doubled by the emoji scale factor.
    assert_eq!(w, 32);
}

#[test]
fn split_emojis_centers_on_the_box() {
    let f = stub_font();
    let emojis = vec![EmojiType::Discord(5)];
    let mut idx = 0;
    let glyphs = f.layout_with_emojis("a😀", &emojis, &mut idx, Scale::uniform(1), 0, 0);
    let (ems, drawn) = split_emojis(&glyphs, 1, 2);
    assert_eq!(drawn.len(), 1);
    assert_eq!(ems.len(), 1);
    // The placeholder box runs from x 10 to 26: 16 wide, centred 8 in.
    assert_eq!(ems[0].size, 16);
    assert_eq!(ems[0].x, 10 + 8 + 1);
    assert_eq!(ems[0].y, -8 + 8 + 2);
    assert_eq!(ems[0].emoji, EmojiType::Discord(5));
}

#[test]
fn translate_path_shifts_every_coordinate() {
    let cmds = vec![
        PathCmd::MoveTo { x: 1, y: 2 },
        PathCmd::QuadTo { x1: 3, y1: 4, x: 5, y: 6 },
        PathCmd::CurveTo { x1: 1, y1: 1, x2: 2, y2: 2, x: 3, y: 3 },
        PathCmd::Close,
    ];
    let moved = translate_path(&cmds, 10, 20);
    assert_eq!(moved[0], PathCmd::MoveTo { x: 11, y: 22 });
    assert_eq!(moved[1], PathCmd::QuadTo { x1: 13, y1: 24, x: 15, y: 26 });
    assert_eq!(
        moved[2],
        PathCmd::CurveTo { x1: 11, y1: 21, x2: 12, y2: 22, x: 13, y: 23 }
    );
    assert_eq!(moved[3], PathCmd::Close);
}

#[test]
fn notdef_for_unknown_characters() {
    let f = stub_font();
    let glyphs = f.layout("a?", Scale::uniform(1), 0, 0);
    assert_eq!(glyphs[1].glyph_id, 0);
    assert_eq!(glyphs[1].font, FontRef::Main);
    // The notdef glyph still advances the pen but draws nothing.
    assert!(!glyphs[1].has_bb);
}
