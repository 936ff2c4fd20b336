//! The glyph resolver and layout engine: turns text into positioned glyphs
//! against a font set. Each character is resolved in the primary font first,
//! then in the fallbacks in declared order; a character no font covers is
//! drawn with the primary font's notdef glyph. In an emoji-aware pass the
//! placeholder character takes the emoji-substitute font's glyph, scaled by
//! the emoji scale factor, and is paired with the next unconsumed entry of
//! the caller's emoji list, in text order.
//!
//! Pair-kerning is taken from the font that owns the glyph being placed,
//! keyed by the previous glyph's id, whichever font that glyph came from:
//! cross-font pairs simply look the pair up in the current glyph's font and
//! fall back to zero like any absent pair.
//!
//! The model is exact: every position a layout pass reports equals the start
//! position plus the render scale times a scale-free unit coordinate, so
//! measurements scale linearly by construction.

use vstd::prelude::*;

use crate::metrics::{milli_scaled, milli_scaled_exec, FontMetrics, GlyphMetrics, Scale, SuperFont};
use crate::token::{EmojiType, EmojiTypeModel, Token, TokenModel, PLACEHOLDER_EMOJI};

verus! {

/// A unit-coordinate bound no glyph of a well-formed font set steps past in
/// one advance (the scaled emoji advance, a kerning adjustment and a bearing
/// all fit well inside it).
pub const UNIT_STEP: i64 = 33554432;

/// The largest magnitude accepted for a start position.
pub const START_LIMIT: i64 = 1152921504606846976;

/// Which font of the set a glyph came from.
#[derive(Debug, Clone, Copy, PartialEq, Eq, Structural)]
pub enum FontRef {
    Main,
    Fallback(usize),
    EmojiFont,
}

/// One glyph with its pen position and pixel bounding box, in subunit
/// coordinates (start position plus scale times unit metrics).
#[derive(Debug, Clone, Copy, PartialEq, Eq, Structural)]
pub struct PositionedGlyph {
    pub font: FontRef,
    pub glyph_id: u32,
    pub x: i64,
    pub y: i64,
    pub advance: i64,
    pub has_bb: bool,
    pub bb_x0: i64,
    pub bb_y0: i64,
    pub bb_x1: i64,
    pub bb_y1: i64,
}

/// The scale-free value of a positioned glyph: coordinates in font units
/// with the pen starting at zero.
pub struct GlyphModel {
    pub font: FontRef,
    pub glyph_id: u32,
    pub x: int,
    pub advance: int,
    pub has_bb: bool,
    pub bb_x0: int,
    pub bb_y0: int,
    pub bb_x1: int,
    pub bb_y1: int,
}

// ---------------------------------------------------------------------------
// Glyph resolution.
// ---------------------------------------------------------------------------

/// The first fallback from `i` on that covers `c`, with its glyph.
pub open spec fn fallback_glyph_from(fbs: Seq<FontMetrics>, c: char, i: int) -> Option<
    (int, GlyphMetrics),
>
    decreases fbs.len() - i,
{
    if i < 0 || i >= fbs.len() {
        None
    } else {
        match fbs[i].spec_glyph(c) {
            Some(g) => Some((i, g)),
            None => fallback_glyph_from(fbs, c, i + 1),
        }
    }
}

/// The font and glyph that resolve `c`: the primary font where it covers
/// `c`, else the first fallback that does, else the primary font's notdef
/// glyph.
pub open spec fn resolve_glyph(f: &SuperFont, c: char) -> (FontRef, GlyphMetrics) {
    match f.main.spec_glyph(c) {
        Some(g) => (FontRef::Main, g),
        None => match fallback_glyph_from(f.fallbacks@, c, 0) {
            Some((i, g)) => (FontRef::Fallback(i as usize), g),
            None => (FontRef::Main, f.main.notdef),
        },
    }
}

/// The metrics table of the font `r` names.
pub open spec fn font_of(f: &SuperFont, r: FontRef) -> FontMetrics {
    match r {
        FontRef::Main => f.main,
        FontRef::Fallback(i) => f.fallbacks@[i as int],
        FontRef::EmojiFont => f.emoji_font,
    }
}

pub proof fn lemma_fallback_glyph_wf(fbs: Seq<FontMetrics>, c: char, i: int)
    requires
        forall|j: int| 0 <= j < fbs.len() ==> (#[trigger] fbs[j]).wf(),
    ensures
        match fallback_glyph_from(fbs, c, i) {
            Some((j, g)) => i <= j < fbs.len() && g.wf(),
            None => true,
        },
    decreases fbs.len() - i,
{
    if 0 <= i < fbs.len() {
        crate::metrics::lemma_glyph_lookup_wf(fbs[i].glyphs@, c, 0);
        lemma_fallback_glyph_wf(fbs, c, i + 1);
    }
}

/// A resolved glyph of a well-formed font set is well-formed and its font
/// reference is in range.
pub proof fn lemma_resolve_glyph_wf(f: &SuperFont, c: char)
    requires
        f.wf(),
    ensures
        resolve_glyph(f, c).1.wf(),
        resolve_glyph(f, c).0 matches FontRef::Fallback(i) ==> i < f.fallbacks@.len(),
        !(resolve_glyph(f, c).0 is EmojiFont),
        font_of(f, resolve_glyph(f, c).0).wf(),
{
    crate::metrics::lemma_glyph_lookup_wf(f.main.glyphs@, c, 0);
    lemma_fallback_glyph_wf(f.fallbacks@, c, 0);
}

/// Resolves `c` against the font set.
fn resolve_glyph_exec(f: &SuperFont, c: char) -> (r: (FontRef, GlyphMetrics))
    ensures
        r == resolve_glyph(f, c),
{
    match f.main.glyph(c) {
        Some(g) => (FontRef::Main, g),
        None => {
            let n = f.fallbacks.len();
            let mut i: usize = 0;
            while i < n
                invariant
                    i <= n,
                    n == f.fallbacks@.len(),
                    f.main.spec_glyph(c) is None,
                    fallback_glyph_from(f.fallbacks@, c, 0) == fallback_glyph_from(
                        f.fallbacks@,
                        c,
                        i as int,
                    ),
                decreases n - i,
            {
                match f.fallbacks[i].glyph(c) {
                    Some(g) => {
                        proof {
                            assert(f.fallbacks@[i as int].spec_glyph(c) == Some(g));
                            assert(fallback_glyph_from(f.fallbacks@, c, i as int) == Some(
                                (i as int, g),
                            ));
                        }
                        return (FontRef::Fallback(i), g);
                    },
                    None => {},
                }
                i += 1;
            }
            (FontRef::Main, f.main.notdef)
        },
    }
}

// ---------------------------------------------------------------------------
// The unit-scale layout model.
// ---------------------------------------------------------------------------

/// The kerning applied before a glyph: the current glyph's font consulted
/// with the previous glyph's id, zero at the start of a line.
pub open spec fn kern_before(fm: FontMetrics, last: Option<u32>, id: u32) -> int {
    match last {
        Some(l) => fm.spec_kern(l, id),
        None => 0,
    }
}

/// The glyph laid out for `c` with the pen at `caret`, in unit coordinates.
/// An emoji-aware pass gives the placeholder character the emoji font's
/// glyph with its metrics scaled by the emoji scale factor.
pub open spec fn unit_glyph_at(
    f: &SuperFont,
    c: char,
    caret: int,
    last: Option<u32>,
    emoji_aware: bool,
) -> GlyphModel {
    if emoji_aware && c == PLACEHOLDER_EMOJI {
        let g = match f.emoji_font.spec_glyph(c) {
            Some(g) => g,
            None => f.emoji_font.notdef,
        };
        let m = f.emoji_options.scale_milli as int;
        let x = caret + kern_before(f.emoji_font, last, g.id);
        GlyphModel {
            font: FontRef::EmojiFont,
            glyph_id: g.id,
            x,
            advance: milli_scaled(g.advance as int, m),
            has_bb: g.has_bb,
            bb_x0: x + milli_scaled(g.bb_x0 as int, m),
            bb_y0: milli_scaled(g.bb_y0 as int, m),
            bb_x1: x + milli_scaled(g.bb_x1 as int, m),
            bb_y1: milli_scaled(g.bb_y1 as int, m),
        }
    } else {
        let (fr, g) = resolve_glyph(f, c);
        let x = caret + kern_before(font_of(f, fr), last, g.id);
        GlyphModel {
            font: fr,
            glyph_id: g.id,
            x,
            advance: g.advance as int,
            has_bb: g.has_bb,
            bb_x0: x + g.bb_x0,
            bb_y0: g.bb_y0 as int,
            bb_x1: x + g.bb_x1,
            bb_y1: g.bb_y1 as int,
        }
    }
}

/// The glyphs of `text` from `i` on, in unit coordinates, with the pen at
/// `caret` and `last` the previous glyph.
pub open spec fn unit_layout_from(
    f: &SuperFont,
    text: Seq<char>,
    i: int,
    caret: int,
    last: Option<u32>,
    emoji_aware: bool,
) -> Seq<GlyphModel>
    decreases text.len() - i,
{
    if i < 0 || i >= text.len() {
        Seq::empty()
    } else {
        let gm = unit_glyph_at(f, text[i], caret, last, emoji_aware);
        seq![gm] + unit_layout_from(
            f,
            text,
            i + 1,
            gm.x + gm.advance,
            Some(gm.glyph_id),
            emoji_aware,
        )
    }
}

/// The unit-coordinate layout of a whole text.
pub open spec fn unit_layout(f: &SuperFont, text: Seq<char>, emoji_aware: bool) -> Seq<GlyphModel> {
    unit_layout_from(f, text, 0, 0, None, emoji_aware)
}

/// One unit glyph stays within one [`UNIT_STEP`] of the pen, and moves the
/// pen by less than one step.
pub proof fn lemma_unit_glyph_bounds(
    f: &SuperFont,
    c: char,
    caret: int,
    last: Option<u32>,
    emoji_aware: bool,
)
    requires
        f.wf(),
    ensures
        ({
            let gm = unit_glyph_at(f, c, caret, last, emoji_aware);
            &&& caret - UNIT_STEP <= gm.x <= caret + UNIT_STEP
            &&& 0 <= gm.advance <= UNIT_STEP
            &&& caret - UNIT_STEP <= gm.x + gm.advance <= caret + UNIT_STEP
            &&& gm.x - UNIT_STEP <= gm.bb_x0 <= gm.x + UNIT_STEP
            &&& gm.x - UNIT_STEP <= gm.bb_x1 <= gm.x + UNIT_STEP
            &&& -UNIT_STEP <= gm.bb_y0 <= UNIT_STEP
            &&& -UNIT_STEP <= gm.bb_y1 <= UNIT_STEP
        }),
{
    lemma_resolve_glyph_wf(f, c);
    if emoji_aware && c == PLACEHOLDER_EMOJI {
        crate::metrics::lemma_glyph_lookup_wf(f.emoji_font.glyphs@, c, 0);
        let g = match f.emoji_font.spec_glyph(c) {
            Some(g) => g,
            None => f.emoji_font.notdef,
        };
        let m = f.emoji_options.scale_milli as int;
        crate::metrics::lemma_kern_lookup_bound(f.emoji_font.kerning@, match last {
            Some(l) => l,
            None => 0,
        }, g.id, 0);
        assert(0 <= g.advance * m <= 0x100000 * 16000) by (nonlinear_arith)
            requires
                0 <= g.advance <= 0x100000,
                0 <= m <= 16000,
        ;
        assert(-0x100000 * 16000 <= g.bb_x0 * m <= 0x100000 * 16000) by (nonlinear_arith)
            requires
                -0x100000 <= g.bb_x0 <= 0x100000,
                0 <= m <= 16000,
        ;
        assert(-0x100000 * 16000 <= g.bb_y0 * m <= 0x100000 * 16000) by (nonlinear_arith)
            requires
                -0x100000 <= g.bb_y0 <= 0x100000,
                0 <= m <= 16000,
        ;
        assert(-0x100000 * 16000 <= g.bb_x1 * m <= 0x100000 * 16000) by (nonlinear_arith)
            requires
                -0x100000 <= g.bb_x1 <= 0x100000,
                0 <= m <= 16000,
        ;
        assert(-0x100000 * 16000 <= g.bb_y1 * m <= 0x100000 * 16000) by (nonlinear_arith)
            requires
                -0x100000 <= g.bb_y1 <= 0x100000,
                0 <= m <= 16000,
        ;
    } else {
        let (fr, g) = resolve_glyph(f, c);
        crate::metrics::lemma_kern_lookup_bound(font_of(f, fr).kerning@, match last {
            Some(l) => l,
            None => 0,
        }, g.id, 0);
    }
}

/// Every glyph of a unit layout stays within a step per character of the
/// starting pen position.
pub proof fn lemma_unit_layout_bounds(
    f: &SuperFont,
    text: Seq<char>,
    i: int,
    caret: int,
    last: Option<u32>,
    emoji_aware: bool,
)
    requires
        f.wf(),
    ensures
        ({
            let gs = unit_layout_from(f, text, i, caret, last, emoji_aware);
            &&& gs.len() == if 0 <= i <= text.len() {
                text.len() - i
            } else {
                0
            }
            &&& forall|j: int|
                0 <= j < gs.len() ==> {
                    let gm = #[trigger] gs[j];
                    &&& caret - (j + 1) * UNIT_STEP <= gm.x <= caret + (j + 1) * UNIT_STEP
                    &&& 0 <= gm.advance <= UNIT_STEP
                    &&& caret - (j + 2) * UNIT_STEP <= gm.bb_x0 <= caret + (j + 2) * UNIT_STEP
                    &&& caret - (j + 2) * UNIT_STEP <= gm.bb_x1 <= caret + (j + 2) * UNIT_STEP
                    &&& -UNIT_STEP <= gm.bb_y0 <= UNIT_STEP
                    &&& -UNIT_STEP <= gm.bb_y1 <= UNIT_STEP
                }
        }),
    decreases text.len() - i,
{
    if 0 <= i < text.len() {
        let gm = unit_glyph_at(f, text[i], caret, last, emoji_aware);
        lemma_unit_glyph_bounds(f, text[i], caret, last, emoji_aware);
        lemma_unit_layout_bounds(
            f,
            text,
            i + 1,
            gm.x + gm.advance,
            Some(gm.glyph_id),
            emoji_aware,
        );
        let gs = unit_layout_from(f, text, i, caret, last, emoji_aware);
        let rest = unit_layout_from(
            f,
            text,
            i + 1,
            gm.x + gm.advance,
            Some(gm.glyph_id),
            emoji_aware,
        );
        assert forall|j: int|
            0 <= j < gs.len() implies {
            let g2 = #[trigger] gs[j];
            &&& caret - (j + 1) * UNIT_STEP <= g2.x <= caret + (j + 1) * UNIT_STEP
            &&& 0 <= g2.advance <= UNIT_STEP
            &&& caret - (j + 2) * UNIT_STEP <= g2.bb_x0 <= caret + (j + 2) * UNIT_STEP
            &&& caret - (j + 2) * UNIT_STEP <= g2.bb_x1 <= caret + (j + 2) * UNIT_STEP
            &&& -UNIT_STEP <= g2.bb_y0 <= UNIT_STEP
            &&& -UNIT_STEP <= g2.bb_y1 <= UNIT_STEP
        } by {
            if j == 0 {
                assert(gs[0] == gm);
            } else {
                assert(gs[j] == rest[j - 1]);
                let base = gm.x + gm.advance;
                assert(base - j * UNIT_STEP <= rest[j - 1].x <= base + j * UNIT_STEP);
                assert(caret - UNIT_STEP <= base <= caret + UNIT_STEP);
                assert((j + 1) * UNIT_STEP == j * UNIT_STEP + UNIT_STEP) by (nonlinear_arith);
                assert((j + 2) * UNIT_STEP == (j + 1) * UNIT_STEP + UNIT_STEP) by (
                nonlinear_arith);
            }
        }
    }
}

// ---------------------------------------------------------------------------
// The executable layout pass.
// ---------------------------------------------------------------------------

/// Whether an executable glyph is the unit glyph `u` placed at
/// `(start_x, start_y)` and scaled by `scale`.
pub open spec fn glyph_scaled_matches(
    g: PositionedGlyph,
    u: GlyphModel,
    scale: Scale,
    start_x: int,
    start_y: int,
) -> bool {
    &&& g.font == u.font
    &&& g.glyph_id == u.glyph_id
    &&& g.x == start_x + scale.x * u.x
    &&& g.y == start_y
    &&& g.advance == scale.x * u.advance
    &&& g.has_bb == u.has_bb
    &&& g.bb_x0 == start_x + scale.x * u.bb_x0
    &&& g.bb_x1 == start_x + scale.x * u.bb_x1
    &&& g.bb_y0 == start_y + scale.y * u.bb_y0
    &&& g.bb_y1 == start_y + scale.y * u.bb_y1
}

/// Whether an executable layout is the unit layout `us` placed at
/// `(start_x, start_y)` and scaled by `scale`.
pub open spec fn layout_scaled_matches(
    gs: Seq<PositionedGlyph>,
    us: Seq<GlyphModel>,
    scale: Scale,
    start_x: int,
    start_y: int,
) -> bool {
    &&& gs.len() == us.len()
    &&& forall|j: int|
        0 <= j < gs.len() ==> glyph_scaled_matches(#[trigger] gs[j], us[j], scale, start_x, start_y)
}

/// The largest unit pen coordinate a layout pass can reach, with headroom.
pub const UCARET_LIMIT: i64 = 70368744177664;

/// Scales one resolved unit glyph into place: the pen moves by the kerning
/// `k`, the glyph sits at the moved pen, and every coordinate is the start
/// position plus the scale times its unit value. Returns the glyph and the
/// new scaled pen position.
fn place_scaled(
    font: FontRef,
    id: u32,
    k: i64,
    adv: i64,
    has_bb: bool,
    bx0: i64,
    by0: i64,
    bx1: i64,
    by1: i64,
    caret: i64,
    start_x: i64,
    start_y: i64,
    scale: Scale,
    Ghost(ucaret): Ghost<int>,
) -> (r: (PositionedGlyph, i64))
    requires
        scale.wf(),
        caret == scale.x * ucaret,
        -UCARET_LIMIT < ucaret < UCARET_LIMIT,
        -0x100000 <= k <= 0x100000,
        0 <= adv <= UNIT_STEP,
        -UNIT_STEP <= bx0 <= UNIT_STEP,
        -UNIT_STEP <= by0 <= UNIT_STEP,
        -UNIT_STEP <= bx1 <= UNIT_STEP,
        -UNIT_STEP <= by1 <= UNIT_STEP,
        -START_LIMIT <= start_x <= START_LIMIT,
        -START_LIMIT <= start_y <= START_LIMIT,
    ensures
        r.0.font == font,
        r.0.glyph_id == id,
        r.0.x == start_x + scale.x * (ucaret + k),
        r.0.y == start_y,
        r.0.advance == scale.x * adv,
        r.0.has_bb == has_bb,
        r.0.bb_x0 == start_x + scale.x * (ucaret + k + bx0),
        r.0.bb_x1 == start_x + scale.x * (ucaret + k + bx1),
        r.0.bb_y0 == start_y + scale.y * by0,
        r.0.bb_y1 == start_y + scale.y * by1,
        r.1 == scale.x * (ucaret + k + adv),
{
    let sx: i64 = scale.x as i64;
    let sy: i64 = scale.y as i64;
    proof {
        assert({
            &&& -65536 * (UCARET_LIMIT + 3 * UNIT_STEP) < scale.x * (ucaret + k) < 65536 * (
            UCARET_LIMIT + 3 * UNIT_STEP)
            &&& -65536 * (UCARET_LIMIT + 3 * UNIT_STEP) < scale.x * (ucaret + k + adv) < 65536 * (
            UCARET_LIMIT + 3 * UNIT_STEP)
            &&& -65536 * (UCARET_LIMIT + 3 * UNIT_STEP) < scale.x * (ucaret + k + bx0) < 65536 * (
            UCARET_LIMIT + 3 * UNIT_STEP)
            &&& -65536 * (UCARET_LIMIT + 3 * UNIT_STEP) < scale.x * (ucaret + k + bx1) < 65536 * (
            UCARET_LIMIT + 3 * UNIT_STEP)
            &&& -65536 * UNIT_STEP <= scale.x * k <= 65536 * UNIT_STEP
            &&& -65536 * UNIT_STEP <= scale.x * adv <= 65536 * UNIT_STEP
            &&& -65536 * UNIT_STEP <= scale.x * bx0 <= 65536 * UNIT_STEP
            &&& -65536 * UNIT_STEP <= scale.x * bx1 <= 65536 * UNIT_STEP
            &&& -65536 * UNIT_STEP <= scale.y * by0 <= 65536 * UNIT_STEP
            &&& -65536 * UNIT_STEP <= scale.y * by1 <= 65536 * UNIT_STEP
            &&& scale.x * (ucaret + k) == scale.x * ucaret + scale.x * k
            &&& scale.x * (ucaret + k + adv) == scale.x * (ucaret + k) + scale.x * adv
            &&& scale.x * (ucaret + k + bx0) == scale.x * (ucaret + k) + scale.x * bx0
            &&& scale.x * (ucaret + k + bx1) == scale.x * (ucaret + k) + scale.x * bx1
        }) by (nonlinear_arith)
            requires
                0 <= scale.x <= 65536,
                0 <= scale.y <= 65536,
                -UCARET_LIMIT < ucaret < UCARET_LIMIT,
                -0x100000 <= k <= 0x100000,
                0 <= adv <= UNIT_STEP,
                -UNIT_STEP <= bx0 <= UNIT_STEP,
                -UNIT_STEP <= by0 <= UNIT_STEP,
                -UNIT_STEP <= bx1 <= UNIT_STEP,
                -UNIT_STEP <= by1 <= UNIT_STEP,
                UNIT_STEP == 33554432,
                UCARET_LIMIT == 70368744177664,
        ;
    }
    let pen: i64 = caret + k * sx;
    let x: i64 = start_x + pen;
    let g = PositionedGlyph {
        font,
        glyph_id: id,
        x,
        y: start_y,
        advance: adv * sx,
        has_bb,
        bb_x0: x + bx0 * sx,
        bb_y0: start_y + by0 * sy,
        bb_x1: x + bx1 * sx,
        bb_y1: start_y + by1 * sy,
    };
    (g, pen + adv * sx)
}

/// Lays `text` out from `(start_x, start_y)`: one positioned glyph per
/// character, each the scaled image of the unit layout's glyph. With
/// `emoji_aware` the placeholder character takes the emoji font's glyph at
/// the emoji scale.
pub fn layout_chars(
    f: &SuperFont,
    text: &Vec<char>,
    scale: Scale,
    start_x: i64,
    start_y: i64,
    emoji_aware: bool,
) -> (r: Vec<PositionedGlyph>)
    requires
        f.wf(),
        scale.wf(),
        text@.len() <= crate::metrics::MAX_TEXT_LEN as int,
        -START_LIMIT <= start_x <= START_LIMIT,
        -START_LIMIT <= start_y <= START_LIMIT,
    ensures
        layout_scaled_matches(
            r@,
            unit_layout(f, text@, emoji_aware),
            scale,
            start_x as int,
            start_y as int,
        ),
{
    let ghost whole = unit_layout(f, text@, emoji_aware);
    proof {
        lemma_unit_layout_bounds(f, text@, 0, 0, None, emoji_aware);
    }
    let n = text.len();
    let mut out: Vec<PositionedGlyph> = Vec::new();
    let mut pos: usize = 0;
    let mut caret: i64 = 0;
    let mut last: Option<u32> = None;
    let ghost mut ucaret: int = 0;
    proof {
        assert(whole =~= whole.take(0) + unit_layout_from(f, text@, 0, 0, None, emoji_aware));
    }
    while pos < n
        invariant
            f.wf(),
            scale.wf(),
            n == text@.len(),
            n <= crate::metrics::MAX_TEXT_LEN,
            -START_LIMIT <= start_x <= START_LIMIT,
            -START_LIMIT <= start_y <= START_LIMIT,
            pos <= n,
            out@.len() == pos,
            whole == unit_layout(f, text@, emoji_aware),
            whole.len() == n,
            whole =~= whole.take(pos as int) + unit_layout_from(
                f,
                text@,
                pos as int,
                ucaret,
                last,
                emoji_aware,
            ),
            forall|j: int|
                0 <= j < pos ==> glyph_scaled_matches(
                    #[trigger] out@[j],
                    whole[j],
                    scale,
                    start_x as int,
                    start_y as int,
                ),
            -(pos as int) * UNIT_STEP <= ucaret <= (pos as int) * UNIT_STEP,
            caret == scale.x * ucaret,
        decreases n - pos,
    {
        let c = text[pos];
        let ghost gm = unit_glyph_at(f, c, ucaret, last, emoji_aware);
        proof {
            lemma_unit_glyph_bounds(f, c, ucaret, last, emoji_aware);
            assert(whole[pos as int] == gm);
            assert(-UCARET_LIMIT < ucaret < UCARET_LIMIT);
        }
        let g: PositionedGlyph;
        if emoji_aware && c == PLACEHOLDER_EMOJI {
            let g0 = match f.emoji_font.glyph(c) {
                Some(g0) => g0,
                None => f.emoji_font.notdef,
            };
            proof {
                crate::metrics::lemma_glyph_lookup_wf(f.emoji_font.glyphs@, c, 0);
            }
            let m = f.emoji_options.scale_milli;
            let k: i32 = match last {
                Some(l) => f.emoji_font.pair_kerning(l, g0.id),
                None => 0,
            };
            proof {
                crate::metrics::lemma_kern_lookup_bound(f.emoji_font.kerning@, match last {
                    Some(l) => l,
                    None => 0u32,
                }, g0.id, 0);
                assert(k == kern_before(f.emoji_font, last, g0.id));
            }
            let adv = milli_scaled_exec(g0.advance as i64, m);
            let ex0 = milli_scaled_exec(g0.bb_x0 as i64, m);
            let ey0 = milli_scaled_exec(g0.bb_y0 as i64, m);
            let ex1 = milli_scaled_exec(g0.bb_x1 as i64, m);
            let ey1 = milli_scaled_exec(g0.bb_y1 as i64, m);
            let (g2, pen) = place_scaled(
                FontRef::EmojiFont,
                g0.id,
                k as i64,
                adv,
                g0.has_bb,
                ex0,
                ey0,
                ex1,
                ey1,
                caret,
                start_x,
                start_y,
                scale,
                Ghost(ucaret),
            );
            g = g2;
            caret = pen;
            last = Some(g0.id);
            proof {
                assert(gm.x == ucaret + k);
                assert(gm.advance == adv);
                ucaret = gm.x + gm.advance;
            }
        } else {
            let (fr, g0) = resolve_glyph_exec(f, c);
            proof {
                lemma_resolve_glyph_wf(f, c);
            }
            let k: i32 = match fr {
                FontRef::Main => match last {
                    Some(l) => f.main.pair_kerning(l, g0.id),
                    None => 0,
                },
                FontRef::Fallback(i) => match last {
                    Some(l) => f.fallbacks[i].pair_kerning(l, g0.id),
                    None => 0,
                },
                FontRef::EmojiFont => 0,
            };
            proof {
                assert(k == kern_before(font_of(f, fr), last, g0.id));
                crate::metrics::lemma_kern_lookup_bound(font_of(f, fr).kerning@, match last {
                    Some(l) => l,
                    None => 0u32,
                }, g0.id, 0);
            }
            let (g2, pen) = place_scaled(
                fr,
                g0.id,
                k as i64,
                g0.advance as i64,
                g0.has_bb,
                g0.bb_x0 as i64,
                g0.bb_y0 as i64,
                g0.bb_x1 as i64,
                g0.bb_y1 as i64,
                caret,
                start_x,
                start_y,
                scale,
                Ghost(ucaret),
            );
            g = g2;
            caret = pen;
            last = Some(g0.id);
            proof {
                assert(gm.x == ucaret + k);
                assert(gm.advance == g0.advance as int);
                ucaret = gm.x + gm.advance;
            }
        }
        out.push(g);
        proof {
            assert(glyph_scaled_matches(g, gm, scale, start_x as int, start_y as int));
            assert(whole.take(pos as int + 1) =~= whole.take(pos as int) + seq![gm]);
            assert(whole =~= whole.take(pos as int + 1) + unit_layout_from(
                f,
                text@,
                pos as int + 1,
                gm.x + gm.advance,
                Some(gm.glyph_id),
                emoji_aware,
            ));
        }
        pos += 1;
    }
    proof {
        assert(whole.take(n as int) =~= whole);
    }
    out
}


// ---------------------------------------------------------------------------
// The public layout passes.
// ---------------------------------------------------------------------------

/// A copy of an emoji value.
pub fn clone_emoji_type(e: &EmojiType) -> (r: EmojiType)
    ensures
        r.deep_view() == e.deep_view(),
{
    match e {
        EmojiType::Regular(s) => EmojiType::Regular(s.clone()),
        EmojiType::Discord(id) => EmojiType::Discord(*id),
    }
}

/// The emoji paired with the glyph of character `j`: the next unconsumed
/// entry of the emoji list where the character is the placeholder, counted
/// in text order from `start_idx`, and nothing otherwise. A placeholder past
/// the end of the list is paired with nothing.
pub open spec fn paired_emoji(
    text: Seq<char>,
    j: int,
    emojis: Seq<EmojiTypeModel>,
    start_idx: int,
) -> Option<EmojiTypeModel> {
    if text[j] == PLACEHOLDER_EMOJI {
        let k = start_idx + crate::emoji_parse::count_char(text.take(j), PLACEHOLDER_EMOJI);
        if 0 <= k < emojis.len() {
            Some(emojis[k])
        } else {
            None
        }
    } else {
        None
    }
}

/// The glyph parts of a paired layout.
pub open spec fn glyphs_of(r: Seq<(PositionedGlyph, Option<EmojiType>)>) -> Seq<PositionedGlyph> {
    r.map_values(|p: (PositionedGlyph, Option<EmojiType>)| p.0)
}

impl SuperFont {
    /// Lays `text` out from `(start_x, start_y)` without emoji awareness:
    /// one glyph per character, the scaled image of the unit layout.
    pub fn layout(&self, text: &str, scale: Scale, start_x: i64, start_y: i64) -> (r: Vec<
        PositionedGlyph,
    >)
        requires
            self.wf(),
            scale.wf(),
            text@.len() <= crate::metrics::MAX_TEXT_LEN as int,
            -START_LIMIT <= start_x <= START_LIMIT,
            -START_LIMIT <= start_y <= START_LIMIT,
        ensures
            layout_scaled_matches(
                r@,
                unit_layout(self, text@, false),
                scale,
                start_x as int,
                start_y as int,
            ),
    {
        let chars = crate::chars::str_to_chars(text);
        layout_chars(self, &chars, scale, start_x, start_y, false)
    }

    /// Lays parsed text out with emoji awareness: each placeholder character
    /// takes the emoji font's glyph at the emoji scale and is paired with
    /// the next unconsumed entry of `emojis`, starting at `*emoji_idx`,
    /// which advances by the number of placeholders laid out.
    pub fn layout_with_emojis(
        &self,
        text: &str,
        emojis: &Vec<EmojiType>,
        emoji_idx: &mut usize,
        scale: Scale,
        start_x: i64,
        start_y: i64,
    ) -> (r: Vec<(PositionedGlyph, Option<EmojiType>)>)
        requires
            self.wf(),
            scale.wf(),
            text@.len() <= crate::metrics::MAX_TEXT_LEN as int,
            -START_LIMIT <= start_x <= START_LIMIT,
            -START_LIMIT <= start_y <= START_LIMIT,
            *old(emoji_idx) + text@.len() <= usize::MAX,
        ensures
            r@.len() == text@.len(),
            layout_scaled_matches(
                glyphs_of(r@),
                unit_layout(self, text@, true),
                scale,
                start_x as int,
                start_y as int,
            ),
            forall|j: int|
                0 <= j < r@.len() ==> (match (#[trigger] r@[j]).1 {
                    Some(e) => paired_emoji(text@, j, emojis.deep_view(), *old(emoji_idx) as int)
                        == Some(e.deep_view()),
                    None => paired_emoji(text@, j, emojis.deep_view(), *old(emoji_idx) as int)
                        is None,
                }),
            *final(emoji_idx) == *old(emoji_idx) + crate::emoji_parse::count_char(
                text@,
                PLACEHOLDER_EMOJI,
            ),
    {
        let chars = crate::chars::str_to_chars(text);
        let glyphs = layout_chars(self, &chars, scale, start_x, start_y, true);
        proof {
            lemma_unit_layout_bounds(self, chars@, 0, 0, None, true);
        }
        let ghost start_idx = *emoji_idx as int;
        let ghost ems = emojis.deep_view();
        let n = chars.len();
        let mut out: Vec<(PositionedGlyph, Option<EmojiType>)> = Vec::new();
        let mut j: usize = 0;
        proof {
            assert(chars@.take(0) =~= Seq::<char>::empty());
            assert(crate::emoji_parse::count_char(Seq::<char>::empty(), PLACEHOLDER_EMOJI) == 0);
        }
        while j < n
            invariant
                n == chars@.len(),
                chars@ == text@,
                glyphs@.len() == n,
                j <= n,
                out@.len() == j,
                ems == emojis.deep_view(),
                ems.len() == emojis@.len(),
                start_idx + n <= usize::MAX,
                start_idx <= *emoji_idx,
                forall|i: int| 0 <= i < j ==> (#[trigger] out@[i]).0 == glyphs@[i],
                forall|i: int|
                    0 <= i < j ==> (match (#[trigger] out@[i]).1 {
                        Some(e) => paired_emoji(text@, i, ems, start_idx) == Some(e.deep_view()),
                        None => paired_emoji(text@, i, ems, start_idx) is None,
                    }),
                *emoji_idx == start_idx + crate::emoji_parse::count_char(
                    chars@.take(j as int),
                    PLACEHOLDER_EMOJI,
                ),
                *emoji_idx <= start_idx + j,
            decreases n - j,
        {
            let ghost cnt = crate::emoji_parse::count_char(chars@.take(j as int), PLACEHOLDER_EMOJI);
            proof {
                crate::emoji_parse::lemma_count_char_bounds(chars@.take(j as int), PLACEHOLDER_EMOJI);
                assert(chars@.take(j as int + 1) =~= chars@.take(j as int) + seq![chars@[j as int]]);
                crate::emoji_parse::lemma_count_char_concat(
                    chars@.take(j as int),
                    seq![chars@[j as int]],
                    PLACEHOLDER_EMOJI,
                );
                crate::emoji_parse::lemma_count_char_single(chars@[j as int], PLACEHOLDER_EMOJI);
            }
            let c = chars[j];
            let tag: Option<EmojiType>;
            if c == PLACEHOLDER_EMOJI {
                if *emoji_idx < emojis.len() {
                    tag = Some(clone_emoji_type(&emojis[*emoji_idx]));
                } else {
                    tag = None;
                }
                *emoji_idx += 1;
            } else {
                tag = None;
            }
            let g = glyphs[j];
            out.push((g, tag));
            j += 1;
        }
        proof {
            assert(chars@.take(n as int) =~= chars@);
        }
        out
    }
}

/// The characters a token-wise single-line layout walks: one character per
/// Char token, a space per Whitespace token, the placeholder per Emoji
/// token; a Word token ends the walk.
pub open spec fn single_line_chars(ts: Seq<TokenModel>) -> Seq<char>
    decreases ts.len(),
{
    if ts.len() == 0 {
        Seq::empty()
    } else {
        match ts[0] {
            TokenModel::Word(_) => Seq::empty(),
            TokenModel::Char(c) => seq![c] + single_line_chars(ts.drop_first()),
            TokenModel::WhiteSpace => seq![' '] + single_line_chars(ts.drop_first()),
            TokenModel::Emoji(_) => seq![PLACEHOLDER_EMOJI] + single_line_chars(ts.drop_first()),
        }
    }
}

/// The characters a single-line layout walks, as [`single_line_chars`]
/// describes them.
fn tokens_to_single_line_chars(tokens: &Vec<Token>) -> (r: Vec<char>)
    ensures
        r@ == single_line_chars(tokens.deep_view()),
{
    let ghost whole = tokens.deep_view();
    let n = tokens.len();
    let mut chars: Vec<char> = Vec::new();
    let mut i: usize = 0;
    proof {
        assert(whole.skip(0) =~= whole);
        assert(Seq::<char>::empty() + single_line_chars(whole) =~= single_line_chars(whole));
    }
    while i < n
        invariant
            n == tokens@.len(),
            whole == tokens.deep_view(),
            whole.len() == n,
            i <= n,
            single_line_chars(whole) == chars@ + single_line_chars(whole.skip(i as int)),
        decreases n - i,
    {
        proof {
            assert(whole.skip(i as int)[0] == whole[i as int]);
            assert(whole.skip(i as int).drop_first() =~= whole.skip(i as int + 1));
        }
        let ghost pre = chars@;
        match &tokens[i] {
            Token::Word(_) => {
                proof {
                    assert(single_line_chars(whole.skip(i as int)) =~= Seq::<char>::empty());
                    assert(chars@ =~= single_line_chars(whole));
                }
                return chars;
            },
            Token::Char(c) => {
                chars.push(*c);
                proof {
                    assert(chars@ =~= pre.push(whole[i as int]->Char_0));
                    assert(chars@ + single_line_chars(whole.skip(i as int + 1)) =~= pre + (seq![
                        whole[i as int]->Char_0,
                    ] + single_line_chars(whole.skip(i as int + 1))));
                }
            },
            Token::WhiteSpace => {
                chars.push(' ');
                proof {
                    assert(chars@ =~= pre.push(' '));
                    assert(chars@ + single_line_chars(whole.skip(i as int + 1)) =~= pre + (seq![' ']
                        + single_line_chars(whole.skip(i as int + 1))));
                }
            },
            Token::Emoji(_) => {
                chars.push(PLACEHOLDER_EMOJI);
                proof {
                    assert(chars@ =~= pre.push(PLACEHOLDER_EMOJI));
                    assert(chars@ + single_line_chars(whole.skip(i as int + 1)) =~= pre + (seq![
                        PLACEHOLDER_EMOJI,
                    ] + single_line_chars(whole.skip(i as int + 1))));
                }
            },
        }
        i += 1;
    }
    proof {
        assert(whole.skip(n as int) =~= Seq::<TokenModel>::empty());
        assert(single_line_chars(whole.skip(n as int)) =~= Seq::<char>::empty());
        assert(chars@ =~= single_line_chars(whole));
    }
    chars
}

impl SuperFont {
    /// Lays one line of tokens out: a glyph per Char, Whitespace (as a
    /// space) or Emoji (as the placeholder, resolved in the primary font
    /// like any character) token, stopping at the first Word token.
    pub fn single_line_layout(
        &self,
        tokens: &Vec<Token>,
        scale: Scale,
        start_x: i64,
        start_y: i64,
    ) -> (r: Vec<PositionedGlyph>)
        requires
            self.wf(),
            scale.wf(),
            tokens@.len() <= crate::metrics::MAX_TEXT_LEN as int,
            -START_LIMIT <= start_x <= START_LIMIT,
            -START_LIMIT <= start_y <= START_LIMIT,
        ensures
            layout_scaled_matches(
                r@,
                unit_layout(self, single_line_chars(tokens.deep_view()), false),
                scale,
                start_x as int,
                start_y as int,
            ),
    {
        let chars = tokens_to_single_line_chars(tokens);
        proof {
            lemma_single_line_chars_len(tokens.deep_view());
        }
        layout_chars(self, &chars, scale, start_x, start_y, false)
    }
}

/// A layout has one glyph per character.
pub proof fn lemma_unit_layout_len(
    f: &SuperFont,
    text: Seq<char>,
    i: int,
    caret: int,
    last: Option<u32>,
    emoji_aware: bool,
)
    requires
        0 <= i,
    ensures
        unit_layout_from(f, text, i, caret, last, emoji_aware).len() == if i <= text.len() {
            text.len() - i
        } else {
            0
        },
    decreases text.len() - i,
{
    if i < text.len() {
        let gm = unit_glyph_at(f, text[i], caret, last, emoji_aware);
        lemma_unit_layout_len(f, text, i + 1, gm.x + gm.advance, Some(gm.glyph_id), emoji_aware);
    }
}

/// Laying out a prefix of a text gives the prefix of the layout: the engine
/// walks strictly left to right.
pub proof fn lemma_unit_layout_from_prefix(
    f: &SuperFont,
    text: Seq<char>,
    m: int,
    i: int,
    caret: int,
    last: Option<u32>,
    emoji_aware: bool,
)
    requires
        0 <= m <= text.len(),
        0 <= i,
    ensures
        unit_layout_from(f, text.take(m), i, caret, last, emoji_aware) == unit_layout_from(
            f,
            text,
            i,
            caret,
            last,
            emoji_aware,
        ).take(
            if i <= m {
                m - i
            } else {
                0
            },
        ),
    decreases m - i,
{
    if i < m {
        assert(text.take(m)[i] == text[i]);
        let gm = unit_glyph_at(f, text[i], caret, last, emoji_aware);
        lemma_unit_layout_from_prefix(
            f,
            text,
            m,
            i + 1,
            gm.x + gm.advance,
            Some(gm.glyph_id),
            emoji_aware,
        );
        let rest = unit_layout_from(
            f,
            text,
            i + 1,
            gm.x + gm.advance,
            Some(gm.glyph_id),
            emoji_aware,
        );
        lemma_unit_layout_len(f, text, i + 1, gm.x + gm.advance, Some(gm.glyph_id), emoji_aware);
        assert((seq![gm] + rest).take(m - i) =~= seq![gm] + rest.take(m - i - 1));
        assert(unit_layout_from(f, text.take(m), i, caret, last, emoji_aware) =~= unit_layout_from(
            f,
            text,
            i,
            caret,
            last,
            emoji_aware,
        ).take(m - i));
    } else {
        assert(unit_layout_from(f, text.take(m), i, caret, last, emoji_aware)
            =~= Seq::<GlyphModel>::empty());
        assert(unit_layout_from(f, text, i, caret, last, emoji_aware).take(0)
            =~= Seq::<GlyphModel>::empty());
    }
}

/// The prefix form at the whole-text level.
pub proof fn lemma_unit_layout_prefix(f: &SuperFont, text: Seq<char>, m: int, emoji_aware: bool)
    requires
        0 <= m <= text.len(),
    ensures
        unit_layout(f, text.take(m), emoji_aware) == unit_layout(f, text, emoji_aware).take(m),
{
    lemma_unit_layout_from_prefix(f, text, m, 0, 0, None, emoji_aware);
}

/// A single-line walk emits at most one character per token.
pub proof fn lemma_single_line_chars_len(ts: Seq<TokenModel>)
    ensures
        single_line_chars(ts).len() <= ts.len(),
    decreases ts.len(),
{
    if ts.len() > 0 {
        lemma_single_line_chars_len(ts.drop_first());
    }
}

} // verus!

