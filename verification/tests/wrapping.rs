//! Line breaking against the deterministic metrics stub.

use imagetext::metrics::{FontMetrics, GlyphMetrics, Scale, SuperFont};
use imagetext::measure::text_width;
use imagetext::wrap::{text_wrap, text_wrap_with_emojis, WrapStyle};

fn letter(c: char, id: u32) -> GlyphMetrics {
    GlyphMetrics {
        ch: c,
        id,
        advance: 10,
        has_bb: true,
        bb_x0: 0,
        bb_y0: -8,
        bb_x1: 10,
        bb_y1: 0,
    }
}

fn stub_font() -> SuperFont {
    let mut glyphs = Vec::new();
    let mut id = 1;
    for c in "abcdefghijklmnopqrstuvwxyz".chars() {
        glyphs.push(letter(c, id));
        id += 1;
    }
    glyphs.push(GlyphMetrics {
        ch: ' ',
        id,
        advance: 10,
        has_bb: false,
        bb_x0: 0,
        bb_y0: 0,
        bb_x1: 0,
        bb_y1: 0,
    });
    let notdef = GlyphMetrics {
        ch: ' ',
        id: 0,
        advance: 10,
        has_bb: false,
        bb_x0: 0,
        bb_y0: 0,
        bb_x1: 0,
        bb_y1: 0,
    };
    let main = FontMetrics { glyphs, kerning: Vec::new(), notdef: notdef, ascent: 8 };
    // The emoji-substitute font: a 16-unit placeholder glyph.
    let emoji = FontMetrics {
        glyphs: vec![GlyphMetrics {
            ch: '😀',
            id: 900,
            advance: 16,
            has_bb: true,
            bb_x0: 0,
            bb_y0: -8,
            bb_x1: 16,
            bb_y1: 0,
        }],
        kerning: Vec::new(),
        notdef: notdef,
        ascent: 8,
    };
    SuperFont::new(main, Vec::new(), emoji)
}

#[test]
fn word_wrap_scenario() {
    let f = stub_font();
    let s = Scale::uniform(1);
    // The budget fits "the quick" exactly but not "the quick brown".
    let width = text_width(s, &f, "the quick");
    assert!(text_width(s, &f, "the quick brown") > width);
    let lines = text_wrap("the quick brown fox", width, &f, s, WrapStyle::Word);
    assert_eq!(lines, vec!["the quick".to_string(), "brown fox".to_string()]);
}

#[test]
fn character_wrap_scenario() {
    let f = stub_font();
    let s = Scale::uniform(1);
    // A single ten-letter word against a three-letter budget.
    let lines = text_wrap("abcdefghij", 30, &f, s, WrapStyle::Character);
    assert_eq!(
        lines,
        vec![
            "abc".to_string(),
            "def".to_string(),
            "ghi".to_string(),
            "j".to_string()
        ]
    );
    // Re-joining and word-wrapping again never yields more lines.
    let rejoined = lines.join(" ");
    let again = text_wrap(&rejoined, 30, &f, s, WrapStyle::Word);
    assert!(again.len() <= lines.len());
}

#[test]
fn character_wrap_repacks_fragments() {
    let f = stub_font();
    let s = Scale::uniform(1);
    // The splitter cuts "abcdefghij", and the final word pass re-packs its
    // short tail with the following word.
    let lines = text_wrap("abcdefghij kl", 80, &f, s, WrapStyle::Character);
    assert_eq!(lines, vec!["abcdefgh".to_string(), "ij kl".to_string()]);
}

#[test]
fn wrap_empty_yields_no_lines() {
    let f = stub_font();
    let s = Scale::uniform(1);
    assert_eq!(text_wrap("", 100, &f, s, WrapStyle::Word), Vec::<String>::new());
    assert_eq!(
        text_wrap("", 100, &f, s, WrapStyle::Character),
        Vec::<String>::new()
    );
}

#[test]
fn wrap_whitespace_yields_no_lines() {
    let f = stub_font();
    let s = Scale::uniform(1);
    assert_eq!(
        text_wrap("   \t\n  ", 100, &f, s, WrapStyle::Word),
        Vec::<String>::new()
    );
    assert_eq!(
        text_wrap("   ", 100, &f, s, WrapStyle::Character),
        Vec::<String>::new()
    );
}

#[test]
fn wrap_single_character_fits() {
    let f = stub_font();
    let s = Scale::uniform(1);
    assert_eq!(
        text_wrap("a", 100, &f, s, WrapStyle::Word),
        vec!["a".to_string()]
    );
}

#[test]
fn wrap_is_idempotent_on_fitting_lines() {
    let f = stub_font();
    let s = Scale::uniform(1);
    let first = text_wrap("one two three four five six", 70, &f, s, WrapStyle::Word);
    for line in &first {
        let again = text_wrap(line, 70, &f, s, WrapStyle::Word);
        assert_eq!(again, vec![line.clone()]);
    }
}

#[test]
fn overlong_word_gets_its_own_line_in_word_mode() {
    let f = stub_font();
    let s = Scale::uniform(1);
    let lines = text_wrap("a abcdefghijkl b", 50, &f, s, WrapStyle::Word);
    assert_eq!(
        lines,
        vec![
            "a".to_string(),
            "abcdefghijkl".to_string(),
            "b".to_string()
        ]
    );
    // Every line fits the budget or is a single unbreakable word.
    for line in &lines {
        assert!(text_width(s, &f, line) <= 50 || !line.contains(' '));
    }
}

#[test]
fn emoji_aware_wrap_measures_the_placeholder_wide() {
    let f = stub_font();
    let s = Scale::uniform(1);
    // Emoji-aware, the placeholder takes the emoji font's 16-unit glyph, so
    // "😀a" measures 26 units and overflows a 20-unit budget; a single word
    // is still never split in Word mode.
    let parsed = "😀a";
    let aware = text_wrap_with_emojis(parsed, 20, &f, s, WrapStyle::Word);
    assert_eq!(aware, vec![parsed.to_string()]);
    // Plain measurement sees the main font's boxless notdef for the
    // placeholder, so "😀a b" fits a 40-unit budget on one line; measured
    // emoji-aware it breaks.
    let plain = text_wrap("😀a b", 40, &f, s, WrapStyle::Word);
    assert_eq!(plain, vec!["😀a b".to_string()]);
    let aware = text_wrap_with_emojis("😀a b", 40, &f, s, WrapStyle::Word);
    assert_eq!(aware, vec!["😀a".to_string(), "b".to_string()]);
}
