//! The font-metrics model the layout engine works against. A font is a table
//! of glyph metrics in integer units at unit scale; a render scale multiplies
//! them. Pixel positions are therefore exact integers, and every width the
//! engine reports is the scale times a scale-free unit width.

use vstd::prelude::*;

use crate::source::EmojiOptions;

verus! {

/// The largest unit advance or ascent a well-formed font may carry.
pub const MAX_ADVANCE: u32 = 1048576;

/// The largest magnitude of a well-formed kerning adjustment.
pub const MAX_KERN: i32 = 1048576;

/// The largest magnitude of a well-formed bounding-box coordinate.
pub const MAX_BEARING: i32 = 1048576;

/// The largest render scale.
pub const MAX_SCALE: u32 = 65536;

/// The largest emoji scale factor, in thousandths.
pub const MAX_EMOJI_SCALE_MILLI: u32 = 16000;

/// The longest text one layout pass accepts.
pub const MAX_TEXT_LEN: usize = 1048576;

/// A render scale in pixels per font unit, horizontal and vertical.
#[derive(Debug, Clone, Copy, PartialEq, Eq, Structural)]
pub struct Scale {
    pub x: u32,
    pub y: u32,
}

impl Scale {
    pub open spec fn wf(self) -> bool {
        self.x <= MAX_SCALE && self.y <= MAX_SCALE
    }

    /// The same scale in both directions.
    pub fn uniform(size: u32) -> (s: Scale)
        ensures
            s.x == size && s.y == size,
    {
        Scale { x: size, y: size }
    }
}

/// The metrics of one glyph, in font units at unit scale. The bounding box
/// is relative to the pen position (x) and the baseline (y, growing
/// downwards); a glyph with nothing to draw has `has_bb` false.
#[derive(Debug, Clone, Copy, PartialEq, Eq, Structural)]
pub struct GlyphMetrics {
    pub ch: char,
    pub id: u32,
    pub advance: u32,
    pub has_bb: bool,
    pub bb_x0: i32,
    pub bb_y0: i32,
    pub bb_x1: i32,
    pub bb_y1: i32,
}

impl GlyphMetrics {
    pub open spec fn wf(self) -> bool {
        &&& self.advance <= MAX_ADVANCE
        &&& -MAX_BEARING <= self.bb_x0 <= MAX_BEARING
        &&& -MAX_BEARING <= self.bb_y0 <= MAX_BEARING
        &&& -MAX_BEARING <= self.bb_x1 <= MAX_BEARING
        &&& -MAX_BEARING <= self.bb_y1 <= MAX_BEARING
    }
}

/// One pair-kerning entry: the advance adjustment between two glyphs of the
/// same font, in font units at unit scale.
#[derive(Debug, Clone, Copy, PartialEq, Eq, Structural)]
pub struct KernPair {
    pub left: u32,
    pub right: u32,
    pub kern: i32,
}

impl KernPair {
    pub open spec fn wf(self) -> bool {
        -MAX_KERN <= self.kern <= MAX_KERN
    }
}

/// One font: its glyph table, its kerning table, the glyph drawn for a
/// character no table row covers, and its ascent.
pub struct FontMetrics {
    pub glyphs: Vec<GlyphMetrics>,
    pub kerning: Vec<KernPair>,
    pub notdef: GlyphMetrics,
    pub ascent: u32,
}

/// The first glyph for `c` in `glyphs`, from row `i` on.
pub open spec fn glyph_lookup_from(glyphs: Seq<GlyphMetrics>, c: char, i: int) -> Option<
    GlyphMetrics,
>
    decreases glyphs.len() - i,
{
    if i < 0 || i >= glyphs.len() {
        None
    } else if glyphs[i].ch == c {
        Some(glyphs[i])
    } else {
        glyph_lookup_from(glyphs, c, i + 1)
    }
}

/// The first kerning entry for the pair `(l, r)` in `pairs`, from row `i`
/// on; zero where there is none.
pub open spec fn kern_lookup_from(pairs: Seq<KernPair>, l: u32, r: u32, i: int) -> int
    decreases pairs.len() - i,
{
    if i < 0 || i >= pairs.len() {
        0
    } else if pairs[i].left == l && pairs[i].right == r {
        pairs[i].kern as int
    } else {
        kern_lookup_from(pairs, l, r, i + 1)
    }
}

impl FontMetrics {
    pub open spec fn wf(&self) -> bool {
        &&& forall|i: int| 0 <= i < self.glyphs@.len() ==> (#[trigger] self.glyphs@[i]).wf()
        &&& forall|i: int| 0 <= i < self.kerning@.len() ==> (#[trigger] self.kerning@[i]).wf()
        &&& self.notdef.wf()
        &&& self.ascent <= MAX_ADVANCE
    }

    /// The glyph this font maps `c` to, where it has one.
    pub open spec fn spec_glyph(&self, c: char) -> Option<GlyphMetrics> {
        glyph_lookup_from(self.glyphs@, c, 0)
    }

    /// The kerning between two of this font's glyphs; zero where the table
    /// has no entry.
    pub open spec fn spec_kern(&self, l: u32, r: u32) -> int {
        kern_lookup_from(self.kerning@, l, r, 0)
    }

    /// Looks `c` up in the glyph table.
    pub fn glyph(&self, c: char) -> (r: Option<GlyphMetrics>)
        ensures
            r == self.spec_glyph(c),
    {
        let ghost gs = self.glyphs@;
        let n = self.glyphs.len();
        let mut i: usize = 0;
        while i < n
            invariant
                i <= n,
                n == self.glyphs@.len(),
                gs == self.glyphs@,
                glyph_lookup_from(gs, c, 0) == glyph_lookup_from(gs, c, i as int),
            decreases n - i,
        {
            if self.glyphs[i].ch == c {
                return Some(self.glyphs[i]);
            }
            i += 1;
        }
        None
    }

    /// Looks the pair `(l, r)` up in the kerning table.
    pub fn pair_kerning(&self, l: u32, r: u32) -> (k: i32)
        ensures
            k == self.spec_kern(l, r),
    {
        let ghost ps = self.kerning@;
        let n = self.kerning.len();
        let mut i: usize = 0;
        while i < n
            invariant
                i <= n,
                n == self.kerning@.len(),
                ps == self.kerning@,
                kern_lookup_from(ps, l, r, 0) == kern_lookup_from(ps, l, r, i as int),
            decreases n - i,
        {
            let p = &self.kerning[i];
            if p.left == l && p.right == r {
                return p.kern;
            }
            i += 1;
        }
        0
    }
}

/// Looked-up glyphs and kerning entries of a well-formed font are
/// well-formed.
pub proof fn lemma_glyph_lookup_wf(glyphs: Seq<GlyphMetrics>, c: char, i: int)
    requires
        forall|j: int| 0 <= j < glyphs.len() ==> (#[trigger] glyphs[j]).wf(),
    ensures
        match glyph_lookup_from(glyphs, c, i) {
            Some(g) => g.wf(),
            None => true,
        },
    decreases glyphs.len() - i,
{
    if 0 <= i < glyphs.len() && glyphs[i].ch != c {
        lemma_glyph_lookup_wf(glyphs, c, i + 1);
    }
}

pub proof fn lemma_kern_lookup_bound(pairs: Seq<KernPair>, l: u32, r: u32, i: int)
    requires
        forall|j: int| 0 <= j < pairs.len() ==> (#[trigger] pairs[j]).wf(),
    ensures
        -MAX_KERN <= kern_lookup_from(pairs, l, r, i) <= MAX_KERN,
    decreases pairs.len() - i,
{
    if 0 <= i < pairs.len() && !(pairs[i].left == l && pairs[i].right == r) {
        lemma_kern_lookup_bound(pairs, l, r, i + 1);
    }
}

/// `v` scaled by a factor given in thousandths, rounded towards minus
/// infinity.
pub open spec fn milli_scaled(v: int, m: int) -> int {
    (v * m) / 1000
}

/// Computes [`milli_scaled`]. Division in specifications rounds towards
/// minus infinity, so the negative case is computed as a negated ceiling.
pub fn milli_scaled_exec(v: i64, m: u32) -> (r: i64)
    requires
        -0x100000 <= v <= 0x100000,
        m <= MAX_EMOJI_SCALE_MILLI,
    ensures
        r == milli_scaled(v as int, m as int),
        -0x100000 * (MAX_EMOJI_SCALE_MILLI as int) / 1000 <= r <= 0x100000 * (
        MAX_EMOJI_SCALE_MILLI as int) / 1000,
{
    proof {
        assert(-0x100000 * 16000 <= v * m <= 0x100000 * 16000) by (nonlinear_arith)
            requires
                -0x100000 <= v <= 0x100000,
                0 <= m <= 16000,
        ;
    }
    let prod: i64 = v * (m as i64);
    if prod >= 0 {
        proof {
            assert(prod / 1000 == milli_scaled(v as int, m as int));
            assert(0x100000 * 16000 / 1000 == 0x100000 * (MAX_EMOJI_SCALE_MILLI as int) / 1000);
            assert(prod / 1000 <= 0x100000 * 16000 / 1000) by (nonlinear_arith)
                requires
                    0 <= prod <= 0x100000 * 16000,
            ;
        }
        prod / 1000
    } else {
        let q: i64 = (-prod + 999) / 1000;
        proof {
            assert(-q == prod as int / 1000) by (nonlinear_arith)
                requires
                    prod < 0,
                    q == (-prod + 999) / 1000,
                    -0x100000 * 16000 <= prod,
            ;
            assert(-(0x100000 * (MAX_EMOJI_SCALE_MILLI as int)) / 1000 <= prod / 1000) by (
            nonlinear_arith)
                requires
                    -0x100000 * 16000 <= prod < 0,
                    MAX_EMOJI_SCALE_MILLI == 16000,
            ;
        }
        -q
    }
}

/// One primary font, its ordered fallbacks, the emoji-substitute font whose
/// placeholder glyph reserves space for emoji, and the emoji options of this
/// font set. Read-only during any layout, measurement or wrapping pass.
pub struct SuperFont {
    pub main: FontMetrics,
    pub fallbacks: Vec<FontMetrics>,
    pub emoji_font: FontMetrics,
    pub emoji_options: EmojiOptions,
}

impl SuperFont {
    pub open spec fn wf(&self) -> bool {
        &&& self.main.wf()
        &&& forall|i: int| 0 <= i < self.fallbacks@.len() ==> (#[trigger] self.fallbacks@[i]).wf()
        &&& self.emoji_font.wf()
        &&& self.emoji_options.wf()
    }

    /// A font set with the default emoji options.
    pub fn new(font: FontMetrics, fallbacks: Vec<FontMetrics>, emoji_font: FontMetrics) -> (r:
        SuperFont)
        ensures
            r.main == font,
            r.fallbacks == fallbacks,
            r.emoji_font == emoji_font,
            r.emoji_options == EmojiOptions::spec_default(),
    {
        SuperFont { main: font, fallbacks, emoji_font, emoji_options: EmojiOptions::default() }
    }

    /// A font set with the given emoji options.
    pub fn with_emoji_options(
        font: FontMetrics,
        fallbacks: Vec<FontMetrics>,
        emoji_font: FontMetrics,
        emoji_options: EmojiOptions,
    ) -> (r: SuperFont)
        ensures
            r.main == font,
            r.fallbacks == fallbacks,
            r.emoji_font == emoji_font,
            r.emoji_options == emoji_options,
    {
        SuperFont { main: font, fallbacks, emoji_font, emoji_options }
    }

    pub fn main(&self) -> (r: &FontMetrics)
        ensures
            r == &self.main,
    {
        &self.main
    }

    pub fn fallbacks(&self) -> (r: &Vec<FontMetrics>)
        ensures
            r == &self.fallbacks,
    {
        &self.fallbacks
    }
}

} // verus!
