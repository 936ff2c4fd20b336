//! Measurement: the pixel extent of a text is the fold of its positioned
//! glyphs' bounding boxes. Every width equals the horizontal scale times a
//! scale-free unit width, so `text_width` is monotonic in the scale by
//! construction.

use vstd::prelude::*;

use vstd::arithmetic::mul::lemma_mul_inequality;

use crate::layout::{
    layout_chars, layout_scaled_matches, single_line_chars, unit_layout, GlyphModel,
    PositionedGlyph,
};
use crate::metrics::{Scale, SuperFont, MAX_TEXT_LEN};
use crate::emoji_parse::{lemma_parse_out_text_len, spec_parse_out};
use crate::registry::EmojiIndex;
use crate::token::Token;

verus! {

/// The largest line spacing, in thousandths.
pub const MAX_LINE_SPACING_MILLI: u32 = 1000000;

/// The largest number of lines one multiline measurement accepts.
pub const MAX_LINES: usize = 1048576;

/// The unit width of a glyph run: the rightmost bounding-box edge reached,
/// and zero where nothing has a bounding box.
pub open spec fn unit_width_fold(gs: Seq<GlyphModel>) -> int
    decreases gs.len(),
{
    if gs.len() == 0 {
        0
    } else {
        let rest = unit_width_fold(gs.drop_last());
        let g = gs.last();
        if g.has_bb && g.bb_x1 > rest {
            g.bb_x1
        } else {
            rest
        }
    }
}

/// The unit height of a glyph run laid out with the baseline at `ascent`:
/// the lowest bounding-box edge reached, and zero where nothing has a
/// bounding box.
pub open spec fn unit_height_fold(gs: Seq<GlyphModel>, ascent: int) -> int
    decreases gs.len(),
{
    if gs.len() == 0 {
        0
    } else {
        let rest = unit_height_fold(gs.drop_last(), ascent);
        let g = gs.last();
        if g.has_bb && ascent + g.bb_y1 > rest {
            ascent + g.bb_y1
        } else {
            rest
        }
    }
}

pub proof fn lemma_unit_width_fold_nonneg(gs: Seq<GlyphModel>)
    ensures
        unit_width_fold(gs) >= 0,
    decreases gs.len(),
{
    if gs.len() > 0 {
        lemma_unit_width_fold_nonneg(gs.drop_last());
    }
}

pub proof fn lemma_unit_height_fold_nonneg(gs: Seq<GlyphModel>, ascent: int)
    ensures
        unit_height_fold(gs, ascent) >= 0,
    decreases gs.len(),
{
    if gs.len() > 0 {
        lemma_unit_height_fold_nonneg(gs.drop_last(), ascent);
    }
}

/// The unit width of `text` under the font set: the width of its layout,
/// emoji-aware or not, at unit scale. What `text_width` returns is exactly
/// the horizontal scale times this.
pub open spec fn spec_unit_text_width(f: &SuperFont, text: Seq<char>, emoji_aware: bool) -> int {
    unit_width_fold(unit_layout(f, text, emoji_aware))
}

/// The unit height of `text` under the font set, with the baseline at the
/// primary font's ascent.
pub open spec fn spec_unit_text_height(f: &SuperFont, text: Seq<char>, emoji_aware: bool) -> int {
    unit_height_fold(unit_layout(f, text, emoji_aware), f.main.ascent as int)
}

/// Folds the rightmost bounding-box edge of scaled glyphs: the scale times
/// the unit width.
fn fold_width(gs: &Vec<PositionedGlyph>, scale: Scale, Ghost(us): Ghost<Seq<GlyphModel>>) -> (w:
    i64)
    requires
        scale.wf(),
        layout_scaled_matches(gs@, us, scale, 0, 0),
    ensures
        w == scale.x * unit_width_fold(us),
{
    let mut w: i64 = 0;
    let mut i: usize = 0;
    proof {
        assert(us.take(0) =~= Seq::<GlyphModel>::empty());
    }
    while i < gs.len()
        invariant
            scale.wf(),
            layout_scaled_matches(gs@, us, scale, 0, 0),
            i <= gs@.len(),
            w == scale.x * unit_width_fold(us.take(i as int)),
        decreases gs@.len() - i,
    {
        let ghost rest = unit_width_fold(us.take(i as int));
        proof {
            assert(us.take(i as int + 1).drop_last() =~= us.take(i as int));
            assert(us.take(i as int + 1).last() == us[i as int]);
        }
        let g = gs[i];
        if g.has_bb && g.bb_x1 > w {
            proof {
                // The scaled comparison implies the unit one.
                assert(g.bb_x1 == scale.x * us[i as int].bb_x1);
                if !(us[i as int].bb_x1 > rest) {
                    lemma_mul_inequality(us[i as int].bb_x1, rest, scale.x as int);
                    assert(scale.x * us[i as int].bb_x1 == us[i as int].bb_x1 * scale.x) by (
                    nonlinear_arith);
                    assert(scale.x * rest == rest * scale.x) by (nonlinear_arith);
                    assert(false);
                }
            }
            w = g.bb_x1;
        } else {
            proof {
                if us[i as int].has_bb && us[i as int].bb_x1 > rest {
                    lemma_mul_inequality(rest, us[i as int].bb_x1, scale.x as int);
                    assert(scale.x * us[i as int].bb_x1 == us[i as int].bb_x1 * scale.x) by (
                    nonlinear_arith);
                    assert(scale.x * rest == rest * scale.x) by (nonlinear_arith);
                    assert(g.bb_x1 == scale.x * us[i as int].bb_x1);
                    assert(w == g.bb_x1);
                }
            }
        }
        i += 1;
    }
    proof {
        assert(us.take(gs@.len() as int) =~= us);
    }
    w
}

/// Folds the lowest bounding-box edge of scaled glyphs laid out with the
/// baseline at the scaled ascent: the scale times the unit height.
fn fold_height(
    gs: &Vec<PositionedGlyph>,
    scale: Scale,
    start_y: i64,
    Ghost(us): Ghost<Seq<GlyphModel>>,
    Ghost(ascent): Ghost<int>,
) -> (h: i64)
    requires
        scale.wf(),
        layout_scaled_matches(gs@, us, scale, 0, start_y as int),
        start_y == scale.y * ascent,
        0 <= ascent <= crate::metrics::MAX_ADVANCE,
    ensures
        h == scale.y * unit_height_fold(us, ascent),
{
    let mut h: i64 = 0;
    let mut i: usize = 0;
    proof {
        assert(us.take(0) =~= Seq::<GlyphModel>::empty());
    }
    while i < gs.len()
        invariant
            scale.wf(),
            layout_scaled_matches(gs@, us, scale, 0, start_y as int),
            start_y == scale.y * ascent,
            0 <= ascent <= crate::metrics::MAX_ADVANCE,
            i <= gs@.len(),
            h == scale.y * unit_height_fold(us.take(i as int), ascent),
        decreases gs@.len() - i,
    {
        let ghost rest = unit_height_fold(us.take(i as int), ascent);
        proof {
            assert(us.take(i as int + 1).drop_last() =~= us.take(i as int));
            assert(us.take(i as int + 1).last() == us[i as int]);
            assert(scale.y * (ascent + us[i as int].bb_y1) == scale.y * ascent + scale.y * us[
                i as int
            ].bb_y1) by (nonlinear_arith);
        }
        let g = gs[i];
        if g.has_bb && g.bb_y1 > h {
            proof {
                assert(g.bb_y1 == start_y + scale.y * us[i as int].bb_y1);
                assert(g.bb_y1 == scale.y * (ascent + us[i as int].bb_y1));
                if !(ascent + us[i as int].bb_y1 > rest) {
                    lemma_mul_inequality(ascent + us[i as int].bb_y1, rest, scale.y as int);
                    assert(scale.y * (ascent + us[i as int].bb_y1) == (ascent + us[i as int].bb_y1)
                        * scale.y) by (nonlinear_arith);
                    assert(scale.y * rest == rest * scale.y) by (nonlinear_arith);
                    assert(false);
                }
            }
            h = g.bb_y1;
        } else {
            proof {
                if us[i as int].has_bb && ascent + us[i as int].bb_y1 > rest {
                    lemma_mul_inequality(rest, ascent + us[i as int].bb_y1, scale.y as int);
                    assert(scale.y * (ascent + us[i as int].bb_y1) == (ascent + us[i as int].bb_y1)
                        * scale.y) by (nonlinear_arith);
                    assert(scale.y * rest == rest * scale.y) by (nonlinear_arith);
                    assert(g.bb_y1 == start_y + scale.y * us[i as int].bb_y1);
                    assert(h == g.bb_y1);
                }
            }
        }
        i += 1;
    }
    proof {
        assert(us.take(gs@.len() as int) =~= us);
    }
    h
}

/// The width of `text` in subunits: the horizontal scale times the unit
/// width of its plain (not emoji-aware) layout.
pub fn text_width(scale: Scale, font: &SuperFont, text: &str) -> (w: i64)
    requires
        font.wf(),
        scale.wf(),
        text@.len() <= MAX_TEXT_LEN as int,
    ensures
        w == scale.x * spec_unit_text_width(font, text@, false),
{
    let chars = crate::chars::str_to_chars(text);
    let gs = layout_chars(font, &chars, scale, 0, 0, false);
    fold_width(&gs, scale, Ghost(unit_layout(font, text@, false)))
}

/// The width of a parsed text in subunits, with emoji awareness: the
/// placeholder character takes the emoji font's glyph at the emoji scale.
pub fn parsed_text_width_with_emojis(scale: Scale, font: &SuperFont, text: &str) -> (w: i64)
    requires
        font.wf(),
        scale.wf(),
        text@.len() <= MAX_TEXT_LEN as int,
    ensures
        w == scale.x * spec_unit_text_width(font, text@, true),
{
    let chars = crate::chars::str_to_chars(text);
    let gs = layout_chars(font, &chars, scale, 0, 0, true);
    fold_width(&gs, scale, Ghost(unit_layout(font, text@, true)))
}

/// The pixel extent of `text`: the scaled unit width, and the scaled unit
/// height measured from the primary font's ascent.
pub fn text_size(scale: Scale, font: &SuperFont, text: &str) -> (r: (i64, i64))
    requires
        font.wf(),
        scale.wf(),
        text@.len() <= MAX_TEXT_LEN as int,
    ensures
        r.0 == scale.x * spec_unit_text_width(font, text@, false),
        r.1 == scale.y * spec_unit_text_height(font, text@, false),
{
    let chars = crate::chars::str_to_chars(text);
    proof {
        assert(0 <= scale.y * font.main.ascent <= 65536 * 0x100000) by (nonlinear_arith)
            requires
                0 <= scale.y <= 65536,
                0 <= font.main.ascent <= 0x100000,
        ;
    }
    let start_y: i64 = (scale.y as i64) * (font.main.ascent as i64);
    let gs = layout_chars(font, &chars, scale, 0, start_y, false);
    let w = fold_width_at(&gs, scale, start_y, Ghost(unit_layout(font, text@, false)));
    let h = fold_height(
        &gs,
        scale,
        start_y,
        Ghost(unit_layout(font, text@, false)),
        Ghost(font.main.ascent as int),
    );
    (w, h)
}

/// The pixel extent of a parsed text, with emoji awareness.
pub fn parsed_text_size_with_emojis(scale: Scale, font: &SuperFont, text: &str) -> (r: (i64, i64))
    requires
        font.wf(),
        scale.wf(),
        text@.len() <= MAX_TEXT_LEN as int,
    ensures
        r.0 == scale.x * spec_unit_text_width(font, text@, true),
        r.1 == scale.y * spec_unit_text_height(font, text@, true),
{
    let chars = crate::chars::str_to_chars(text);
    proof {
        assert(0 <= scale.y * font.main.ascent <= 65536 * 0x100000) by (nonlinear_arith)
            requires
                0 <= scale.y <= 65536,
                0 <= font.main.ascent <= 0x100000,
        ;
    }
    let start_y: i64 = (scale.y as i64) * (font.main.ascent as i64);
    let gs = layout_chars(font, &chars, scale, 0, start_y, true);
    let w = fold_width_at(&gs, scale, start_y, Ghost(unit_layout(font, text@, true)));
    let h = fold_height(
        &gs,
        scale,
        start_y,
        Ghost(unit_layout(font, text@, true)),
        Ghost(font.main.ascent as int),
    );
    (w, h)
}

/// [`fold_width`] for a layout whose start y is not zero: the width does
/// not depend on the vertical placement.
fn fold_width_at(
    gs: &Vec<PositionedGlyph>,
    scale: Scale,
    start_y: i64,
    Ghost(us): Ghost<Seq<GlyphModel>>,
) -> (w: i64)
    requires
        scale.wf(),
        layout_scaled_matches(gs@, us, scale, 0, start_y as int),
    ensures
        w == scale.x * unit_width_fold(us),
{
    let mut w: i64 = 0;
    let mut i: usize = 0;
    proof {
        assert(us.take(0) =~= Seq::<GlyphModel>::empty());
    }
    while i < gs.len()
        invariant
            scale.wf(),
            layout_scaled_matches(gs@, us, scale, 0, start_y as int),
            i <= gs@.len(),
            w == scale.x * unit_width_fold(us.take(i as int)),
        decreases gs@.len() - i,
    {
        let ghost rest = unit_width_fold(us.take(i as int));
        proof {
            assert(us.take(i as int + 1).drop_last() =~= us.take(i as int));
            assert(us.take(i as int + 1).last() == us[i as int]);
        }
        let g = gs[i];
        if g.has_bb && g.bb_x1 > w {
            proof {
                assert(g.bb_x1 == scale.x * us[i as int].bb_x1);
                if !(us[i as int].bb_x1 > rest) {
                    lemma_mul_inequality(us[i as int].bb_x1, rest, scale.x as int);
                    assert(scale.x * us[i as int].bb_x1 == us[i as int].bb_x1 * scale.x) by (
                    nonlinear_arith);
                    assert(scale.x * rest == rest * scale.x) by (nonlinear_arith);
                    assert(false);
                }
            }
            w = g.bb_x1;
        } else {
            proof {
                if us[i as int].has_bb && us[i as int].bb_x1 > rest {
                    lemma_mul_inequality(rest, us[i as int].bb_x1, scale.x as int);
                    assert(scale.x * us[i as int].bb_x1 == us[i as int].bb_x1 * scale.x) by (
                    nonlinear_arith);
                    assert(scale.x * rest == rest * scale.x) by (nonlinear_arith);
                    assert(g.bb_x1 == scale.x * us[i as int].bb_x1);
                    assert(w == g.bb_x1);
                }
            }
        }
        i += 1;
    }
    proof {
        assert(us.take(gs@.len() as int) =~= us);
    }
    w
}

/// The width of one line of tokens in subunits, measured through a
/// single-line layout of its character units.
pub fn tokens_width(scale: Scale, font: &SuperFont, tokens: &Vec<Token>) -> (w: i64)
    requires
        font.wf(),
        scale.wf(),
        tokens@.len() <= MAX_TEXT_LEN as int,
    ensures
        w == scale.x * unit_width_fold(
            unit_layout(font, single_line_chars(tokens.deep_view()), false),
        ),
{
    let gs = font.single_line_layout(tokens, scale, 0, 0);
    fold_width(
        &gs,
        scale,
        Ghost(unit_layout(font, single_line_chars(tokens.deep_view()), false)),
    )
}

// ---------------------------------------------------------------------------
// Monotonicity in the scale.
// ---------------------------------------------------------------------------

/// For fixed text and font, the measured width is non-decreasing in the
/// horizontal scale: the unit width is scale-free and non-negative, and the
/// measured width is the scale times it.
pub proof fn lemma_text_width_monotonic(
    f: &SuperFont,
    text: Seq<char>,
    s1: Scale,
    s2: Scale,
    emoji_aware: bool,
)
    requires
        s1.x <= s2.x,
    ensures
        s1.x * spec_unit_text_width(f, text, emoji_aware) <= s2.x * spec_unit_text_width(
            f,
            text,
            emoji_aware,
        ),
{
    let w = spec_unit_text_width(f, text, emoji_aware);
    lemma_unit_width_fold_nonneg(unit_layout(f, text, emoji_aware));
    lemma_mul_inequality(s1.x as int, s2.x as int, w);
    assert(s1.x * w == (s1.x as int) * w) by (nonlinear_arith);
    assert(s2.x * w == (s2.x as int) * w) by (nonlinear_arith);
}

// ---------------------------------------------------------------------------
// Multiline measurement.
// ---------------------------------------------------------------------------

/// The height of `n` lines at vertical scale `sy` with line spacing `ls`
/// thousandths: each line adds a spaced line height, and the first line's
/// extra leading is taken back, so spacing 1000 gives exactly `n` line
/// heights.
pub open spec fn spec_multiline_height(n: int, ls: int, sy: int) -> int {
    ((n * ls - ls + 1000) * sy) / 1000
}

/// Euclidean division by 1000 (rounding towards minus infinity).
fn div_1000_floor(t: i64) -> (r: i64)
    requires
        -4611686018427387904 <= t <= 4611686018427387904,
    ensures
        r == t as int / 1000,
{
    if t >= 0 {
        t / 1000
    } else {
        let q: i64 = (-t + 999) / 1000;
        proof {
            assert(-q == t as int / 1000) by (nonlinear_arith)
                requires
                    t < 0,
                    q == (-t + 999) / 1000,
                    -4611686018427387904 <= t,
            ;
        }
        -q
    }
}

/// The extent of several lines: the widest line's width, and the spaced
/// multiline height.
pub fn text_size_multiline(
    lines: &Vec<String>,
    font: &SuperFont,
    scale: Scale,
    line_spacing_milli: u32,
) -> (r: (i64, i64))
    requires
        font.wf(),
        scale.wf(),
        lines@.len() <= MAX_LINES as int,
        line_spacing_milli <= MAX_LINE_SPACING_MILLI,
        forall|i: int| 0 <= i < lines@.len() ==> (#[trigger] lines@[i])@.len() <= MAX_TEXT_LEN as int,
    ensures
        ({
            let ws = Seq::new(
                lines@.len(),
                |i: int| scale.x * spec_unit_text_width(font, lines@[i]@, false),
            );
            &&& r.0 == max_fold(ws)
            &&& r.1 == spec_multiline_height(
                lines@.len() as int,
                line_spacing_milli as int,
                scale.y as int,
            )
        }),
{
    let ghost ws = Seq::new(
        lines@.len(),
        |i: int| scale.x * spec_unit_text_width(font, lines@[i]@, false),
    );
    let mut w: i64 = 0;
    let mut i: usize = 0;
    proof {
        assert(ws.take(0) =~= Seq::<int>::empty());
    }
    while i < lines.len()
        invariant
            font.wf(),
            scale.wf(),
            i <= lines@.len(),
            forall|k: int|
                0 <= k < lines@.len() ==> (#[trigger] lines@[k])@.len() <= MAX_TEXT_LEN as int,
            ws == Seq::new(
                lines@.len(),
                |k: int| scale.x * spec_unit_text_width(font, lines@[k]@, false),
            ),
            w == max_fold(ws.take(i as int)),
        decreases lines@.len() - i,
    {
        proof {
            assert(ws.take(i as int + 1).drop_last() =~= ws.take(i as int));
            assert(ws.take(i as int + 1).last() == ws[i as int]);
        }
        let lw = text_size(scale, font, lines[i].as_str()).0;
        if lw > w {
            w = lw;
        }
        i += 1;
    }
    proof {
        assert(ws.take(lines@.len() as int) =~= ws);
    }
    let n = lines.len();
    let ls: i64 = line_spacing_milli as i64;
    proof {
        assert({
            &&& -1000000 * 2 <= (n as int) * ls - ls + 1000 <= 1048576 * 1000000 + 1000000 + 1000
            &&& -4611686018427387904 <= ((n as int) * ls - ls + 1000) * scale.y
                <= 4611686018427387904
        }) by (nonlinear_arith)
            requires
                0 <= n <= 1048576,
                0 <= ls <= 1000000,
                0 <= scale.y <= 65536,
        ;
    }
    let t: i64 = ((n as i64) * ls - ls + 1000) * (scale.y as i64);
    let h = div_1000_floor(t);
    (w, h)
}

/// The folded width of a prefix never exceeds the folded width of the
/// whole run.
pub proof fn lemma_width_fold_take_mono(gs: Seq<GlyphModel>, m: int)
    requires
        0 <= m <= gs.len(),
    ensures
        unit_width_fold(gs.take(m)) <= unit_width_fold(gs),
    decreases gs.len(),
{
    if m < gs.len() {
        assert(gs.take(m) =~= gs.drop_last().take(m));
        lemma_width_fold_take_mono(gs.drop_last(), m);
    } else {
        assert(gs.take(m) =~= gs);
    }
}

/// The largest value of a sequence, and zero where it is empty or all
/// values are negative.
pub open spec fn max_fold(ws: Seq<int>) -> int
    decreases ws.len(),
{
    if ws.len() == 0 {
        0
    } else {
        let rest = max_fold(ws.drop_last());
        if ws.last() > rest {
            ws.last()
        } else {
            rest
        }
    }
}


/// The width of a raw text in subunits: every resolved emoji span is first
/// replaced by the placeholder, then the parsed text is measured with emoji
/// awareness.
pub fn text_width_with_emojis(scale: Scale, font: &SuperFont, text: &str, index: &EmojiIndex) -> (
    w: i64)
    requires
        font.wf(),
        scale.wf(),
        text@.len() <= MAX_TEXT_LEN as int,
    ensures
        w == scale.x * spec_unit_text_width(
            font,
            spec_parse_out(text@, true, true, index@).text,
            true,
        ),
{
    let cleaned = crate::emoji_parse::clean_emojis(text, index);
    proof {
        lemma_parse_out_text_len(text@, 0, true, true, index@);
    }
    parsed_text_width_with_emojis(scale, font, cleaned.as_str())
}

/// The pixel extent of a raw text, with its emoji parsed out first.
pub fn text_size_with_emojis(scale: Scale, font: &SuperFont, text: &str, index: &EmojiIndex) -> (r:
    (i64, i64))
    requires
        font.wf(),
        scale.wf(),
        text@.len() <= MAX_TEXT_LEN as int,
    ensures
        r.0 == scale.x * spec_unit_text_width(
            font,
            spec_parse_out(text@, true, true, index@).text,
            true,
        ),
        r.1 == scale.y * spec_unit_text_height(
            font,
            spec_parse_out(text@, true, true, index@).text,
            true,
        ),
{
    let cleaned = crate::emoji_parse::clean_emojis(text, index);
    proof {
        lemma_parse_out_text_len(text@, 0, true, true, index@);
    }
    parsed_text_size_with_emojis(scale, font, cleaned.as_str())
}

/// The extent of several parsed lines: the widest emoji-aware line width,
/// and the spaced multiline height.
pub fn parsed_text_size_multiline_with_emojis(
    lines: &Vec<String>,
    font: &SuperFont,
    scale: Scale,
    line_spacing_milli: u32,
) -> (r: (i64, i64))
    requires
        font.wf(),
        scale.wf(),
        lines@.len() <= MAX_LINES as int,
        line_spacing_milli <= MAX_LINE_SPACING_MILLI,
        forall|i: int| 0 <= i < lines@.len() ==> (#[trigger] lines@[i])@.len() <= MAX_TEXT_LEN as int,
    ensures
        ({
            let ws = Seq::new(
                lines@.len(),
                |i: int| scale.x * spec_unit_text_width(font, lines@[i]@, true),
            );
            &&& r.0 == max_fold(ws)
            &&& r.1 == spec_multiline_height(
                lines@.len() as int,
                line_spacing_milli as int,
                scale.y as int,
            )
        }),
{
    let ghost ws = Seq::new(
        lines@.len(),
        |i: int| scale.x * spec_unit_text_width(font, lines@[i]@, true),
    );
    let mut w: i64 = 0;
    let mut i: usize = 0;
    proof {
        assert(ws.take(0) =~= Seq::<int>::empty());
    }
    while i < lines.len()
        invariant
            font.wf(),
            scale.wf(),
            i <= lines@.len(),
            forall|k: int|
                0 <= k < lines@.len() ==> (#[trigger] lines@[k])@.len() <= MAX_TEXT_LEN as int,
            ws == Seq::new(
                lines@.len(),
                |k: int| scale.x * spec_unit_text_width(font, lines@[k]@, true),
            ),
            w == max_fold(ws.take(i as int)),
        decreases lines@.len() - i,
    {
        proof {
            assert(ws.take(i as int + 1).drop_last() =~= ws.take(i as int));
            assert(ws.take(i as int + 1).last() == ws[i as int]);
        }
        let lw = parsed_text_size_with_emojis(scale, font, lines[i].as_str()).0;
        if lw > w {
            w = lw;
        }
        i += 1;
    }
    proof {
        assert(ws.take(lines@.len() as int) =~= ws);
    }
    let n = lines.len();
    let ls: i64 = line_spacing_milli as i64;
    proof {
        assert({
            &&& -1000000 * 2 <= (n as int) * ls - ls + 1000 <= 1048576 * 1000000 + 1000000 + 1000
            &&& -4611686018427387904 <= ((n as int) * ls - ls + 1000) * scale.y
                <= 4611686018427387904
        }) by (nonlinear_arith)
            requires
                0 <= n <= 1048576,
                0 <= ls <= 1000000,
                0 <= scale.y <= 65536,
        ;
    }
    let t: i64 = ((n as i64) * ls - ls + 1000) * (scale.y as i64);
    let h = div_1000_floor(t);
    (w, h)
}

} // verus!
