//! The outline emitter's bookkeeping: which glyphs are drawn as outlines,
//! which positions are reserved for emoji bitmaps, and how glyph outline
//! commands are translated to their pen position. The rasterization itself
//! is a collaborator outside this crate; everything here is plain geometry.

use vstd::prelude::*;

use crate::layout::PositionedGlyph;
use crate::token::{EmojiType, EmojiTypeModel};

verus! {

/// Horizontal alignment of lines in a multiline block.
#[derive(Debug, Clone, Copy)]
pub enum TextAlign {
    Left,
    Center,
    Right,
}

/// The largest magnitude of a bounding-box coordinate this module accepts.
pub const COORD_LIMIT: i64 = 2305843009213693952;

/// One emoji with its layout decided: the pixel position its bitmap is
/// centred on, its square pixel size, which emoji it is, and the placeholder
/// glyph drawn instead if no bitmap can be resolved.
pub struct PositionedEmoji {
    pub x: i64,
    pub y: i64,
    pub size: i64,
    pub emoji: EmojiType,
    pub fallback: PositionedGlyph,
}

/// The mathematical value of a [`PositionedEmoji`].
pub struct PositionedEmojiModel {
    pub x: int,
    pub y: int,
    pub size: int,
    pub emoji: EmojiTypeModel,
    pub fallback: PositionedGlyph,
}

impl DeepView for PositionedEmoji {
    type V = PositionedEmojiModel;

    open spec fn deep_view(&self) -> PositionedEmojiModel {
        PositionedEmojiModel {
            x: self.x as int,
            y: self.y as int,
            size: self.size as int,
            emoji: self.emoji.deep_view(),
            fallback: self.fallback,
        }
    }
}

/// How a paired layout splits for drawing: the emoji to resolve, and the
/// glyphs drawn as outlines. Glyphs without a bounding box draw nothing.
pub struct EmojiSplit {
    pub emojis: Seq<PositionedEmojiModel>,
    pub drawn: Seq<PositionedGlyph>,
}

/// The split of a paired layout from `i` on. An emoji-tagged glyph with a
/// bounding box reserves a square of the box's width, centred half that
/// width (rounded down) into the box from its top-left corner, moved by the
/// configured pixel shift; any other glyph with a bounding box is drawn as
/// an outline.
pub open spec fn spec_emoji_split(
    gs: Seq<(PositionedGlyph, Option<EmojiType>)>,
    i: int,
    shift_x: int,
    shift_y: int,
) -> EmojiSplit
    decreases gs.len() - i,
{
    if i < 0 || i >= gs.len() {
        EmojiSplit { emojis: Seq::empty(), drawn: Seq::empty() }
    } else {
        let rest = spec_emoji_split(gs, i + 1, shift_x, shift_y);
        let g = gs[i].0;
        if g.has_bb {
            match gs[i].1 {
                Some(e) => {
                    let w = g.bb_x1 - g.bb_x0;
                    let pe = PositionedEmojiModel {
                        x: g.bb_x0 + w / 2 + shift_x,
                        y: g.bb_y0 + w / 2 + shift_y,
                        size: w,
                        emoji: e.deep_view(),
                        fallback: g,
                    };
                    EmojiSplit { emojis: seq![pe] + rest.emojis, drawn: rest.drawn }
                },
                None => EmojiSplit { emojis: rest.emojis, drawn: seq![g] + rest.drawn },
            }
        } else {
            rest
        }
    }
}

/// Splits a paired layout into the emoji to resolve and the glyphs to draw,
/// as [`spec_emoji_split`] describes.
pub fn split_emojis(
    glyphs: &Vec<(PositionedGlyph, Option<EmojiType>)>,
    shift_x: i64,
    shift_y: i64,
) -> (r: (Vec<PositionedEmoji>, Vec<PositionedGlyph>))
    requires
        -crate::source::MAX_SHIFT <= shift_x <= crate::source::MAX_SHIFT,
        -crate::source::MAX_SHIFT <= shift_y <= crate::source::MAX_SHIFT,
        forall|j: int|
            0 <= j < glyphs@.len() ==> {
                let g = (#[trigger] glyphs@[j]).0;
                &&& -COORD_LIMIT <= g.bb_x0 <= COORD_LIMIT
                &&& -COORD_LIMIT <= g.bb_x1 <= COORD_LIMIT
                &&& -COORD_LIMIT <= g.bb_y0 <= COORD_LIMIT
                &&& g.has_bb ==> g.bb_x0 <= g.bb_x1
            },
    ensures
        r.0.deep_view() == spec_emoji_split(glyphs@, 0, shift_x as int, shift_y as int).emojis,
        r.1@ == spec_emoji_split(glyphs@, 0, shift_x as int, shift_y as int).drawn,
{
    let ghost whole = spec_emoji_split(glyphs@, 0, shift_x as int, shift_y as int);
    let n = glyphs.len();
    let mut ems: Vec<PositionedEmoji> = Vec::new();
    let mut drawn: Vec<PositionedGlyph> = Vec::new();
    let mut i: usize = 0;
    proof {
        assert(Seq::<PositionedEmojiModel>::empty() + whole.emojis =~= whole.emojis);
        assert(Seq::<PositionedGlyph>::empty() + whole.drawn =~= whole.drawn);
    }
    while i < n
        invariant
            n == glyphs@.len(),
            i <= n,
            -crate::source::MAX_SHIFT <= shift_x <= crate::source::MAX_SHIFT,
            -crate::source::MAX_SHIFT <= shift_y <= crate::source::MAX_SHIFT,
            forall|j: int|
                0 <= j < glyphs@.len() ==> {
                    let g = (#[trigger] glyphs@[j]).0;
                    &&& -COORD_LIMIT <= g.bb_x0 <= COORD_LIMIT
                    &&& -COORD_LIMIT <= g.bb_x1 <= COORD_LIMIT
                    &&& -COORD_LIMIT <= g.bb_y0 <= COORD_LIMIT
                    &&& g.has_bb ==> g.bb_x0 <= g.bb_x1
                },
            whole == spec_emoji_split(glyphs@, 0, shift_x as int, shift_y as int),
            whole.emojis =~= ems.deep_view() + spec_emoji_split(
                glyphs@,
                i as int,
                shift_x as int,
                shift_y as int,
            ).emojis,
            whole.drawn =~= drawn@ + spec_emoji_split(
                glyphs@,
                i as int,
                shift_x as int,
                shift_y as int,
            ).drawn,
        decreases n - i,
    {
        let ghost rest = spec_emoji_split(glyphs@, i as int, shift_x as int, shift_y as int);
        let ghost next = spec_emoji_split(glyphs@, i as int + 1, shift_x as int, shift_y as int);
        let g = glyphs[i].0;
        let ghost pre_e = ems.deep_view();
        let ghost pre_d = drawn@;
        if g.has_bb {
            match &glyphs[i].1 {
                Some(e) => {
                    let w = g.bb_x1 - g.bb_x0;
                    let pe = PositionedEmoji {
                        x: g.bb_x0 + w / 2 + shift_x,
                        y: g.bb_y0 + w / 2 + shift_y,
                        size: w,
                        emoji: crate::layout::clone_emoji_type(e),
                        fallback: g,
                    };
                    ems.push(pe);
                    proof {
                        assert(ems.deep_view() =~= pre_e.push(pe.deep_view()));
                        assert(rest.emojis =~= seq![pe.deep_view()] + next.emojis);
                        assert(ems.deep_view() + next.emojis =~= pre_e + rest.emojis);
                    }
                },
                None => {
                    drawn.push(g);
                    proof {
                        assert(drawn@ =~= pre_d.push(g));
                        assert(rest.drawn =~= seq![g] + next.drawn);
                        assert(drawn@ + next.drawn =~= pre_d + rest.drawn);
                    }
                },
            }
        }
        i += 1;
    }
    (ems, drawn)
}

/// One command of an outline path, in the four-operation protocol a
/// rasterizer consumes.
#[derive(Debug, Clone, Copy, PartialEq, Eq, Structural)]
pub enum PathCmd {
    MoveTo { x: i64, y: i64 },
    LineTo { x: i64, y: i64 },
    QuadTo { x1: i64, y1: i64, x: i64, y: i64 },
    CurveTo { x1: i64, y1: i64, x2: i64, y2: i64, x: i64, y: i64 },
    Close,
}

/// Whether `b` is `a` moved by `(dx, dy)`.
pub open spec fn cmd_shifted(a: PathCmd, b: PathCmd, dx: int, dy: int) -> bool {
    match (a, b) {
        (PathCmd::MoveTo { x, y }, PathCmd::MoveTo { x: x2, y: y2 }) => x2 == x + dx && y2 == y
            + dy,
        (PathCmd::LineTo { x, y }, PathCmd::LineTo { x: x2, y: y2 }) => x2 == x + dx && y2 == y
            + dy,
        (
            PathCmd::QuadTo { x1, y1, x, y },
            PathCmd::QuadTo { x1: a1, y1: b1, x: x2, y: y2 },
        ) => a1 == x1 + dx && b1 == y1 + dy && x2 == x + dx && y2 == y + dy,
        (
            PathCmd::CurveTo { x1, y1, x2, y2, x, y },
            PathCmd::CurveTo { x1: a1, y1: b1, x2: a2, y2: b2, x: x3, y: y3 },
        ) => a1 == x1 + dx && b1 == y1 + dy && a2 == x2 + dx && b2 == y2 + dy && x3 == x + dx && y3
            == y + dy,
        (PathCmd::Close, PathCmd::Close) => true,
        _ => false,
    }
}

/// A glyph's outline translated to its pen position: every coordinate of
/// every command moved by `(dx, dy)`, with the command order kept.
pub fn translate_path(cmds: &Vec<PathCmd>, dx: i64, dy: i64) -> (r: Vec<PathCmd>)
    requires
        -COORD_LIMIT <= dx <= COORD_LIMIT,
        -COORD_LIMIT <= dy <= COORD_LIMIT,
        forall|j: int|
            0 <= j < cmds@.len() ==> match #[trigger] cmds@[j] {
                PathCmd::MoveTo { x, y } => -COORD_LIMIT <= x <= COORD_LIMIT && -COORD_LIMIT <= y
                    <= COORD_LIMIT,
                PathCmd::LineTo { x, y } => -COORD_LIMIT <= x <= COORD_LIMIT && -COORD_LIMIT <= y
                    <= COORD_LIMIT,
                PathCmd::QuadTo { x1, y1, x, y } => -COORD_LIMIT <= x1 <= COORD_LIMIT
                    && -COORD_LIMIT <= y1 <= COORD_LIMIT && -COORD_LIMIT <= x <= COORD_LIMIT
                    && -COORD_LIMIT <= y <= COORD_LIMIT,
                PathCmd::CurveTo { x1, y1, x2, y2, x, y } => -COORD_LIMIT <= x1 <= COORD_LIMIT
                    && -COORD_LIMIT <= y1 <= COORD_LIMIT && -COORD_LIMIT <= x2 <= COORD_LIMIT
                    && -COORD_LIMIT <= y2 <= COORD_LIMIT && -COORD_LIMIT <= x <= COORD_LIMIT
                    && -COORD_LIMIT <= y <= COORD_LIMIT,
                PathCmd::Close => true,
            },
    ensures
        r@.len() == cmds@.len(),
        forall|j: int|
            0 <= j < cmds@.len() ==> cmd_shifted(cmds@[j], #[trigger] r@[j], dx as int, dy as int),
{
    let n = cmds.len();
    let mut out: Vec<PathCmd> = Vec::new();
    let mut i: usize = 0;
    while i < n
        invariant
            n == cmds@.len(),
            i <= n,
            -COORD_LIMIT <= dx <= COORD_LIMIT,
            -COORD_LIMIT <= dy <= COORD_LIMIT,
            forall|j: int|
                0 <= j < cmds@.len() ==> match #[trigger] cmds@[j] {
                    PathCmd::MoveTo { x, y } => -COORD_LIMIT <= x <= COORD_LIMIT && -COORD_LIMIT
                        <= y <= COORD_LIMIT,
                    PathCmd::LineTo { x, y } => -COORD_LIMIT <= x <= COORD_LIMIT && -COORD_LIMIT
                        <= y <= COORD_LIMIT,
                    PathCmd::QuadTo { x1, y1, x, y } => -COORD_LIMIT <= x1 <= COORD_LIMIT
                        && -COORD_LIMIT <= y1 <= COORD_LIMIT && -COORD_LIMIT <= x <= COORD_LIMIT
                        && -COORD_LIMIT <= y <= COORD_LIMIT,
                    PathCmd::CurveTo { x1, y1, x2, y2, x, y } => -COORD_LIMIT <= x1 <= COORD_LIMIT
                        && -COORD_LIMIT <= y1 <= COORD_LIMIT && -COORD_LIMIT <= x2 <= COORD_LIMIT
                        && -COORD_LIMIT <= y2 <= COORD_LIMIT && -COORD_LIMIT <= x <= COORD_LIMIT
                        && -COORD_LIMIT <= y <= COORD_LIMIT,
                    PathCmd::Close => true,
                },
            out@.len() == i,
            forall|j: int|
                0 <= j < i ==> cmd_shifted(cmds@[j], #[trigger] out@[j], dx as int, dy as int),
        decreases n - i,
    {
        let c = cmds[i];
        let moved = match c {
            PathCmd::MoveTo { x, y } => PathCmd::MoveTo { x: x + dx, y: y + dy },
            PathCmd::LineTo { x, y } => PathCmd::LineTo { x: x + dx, y: y + dy },
            PathCmd::QuadTo { x1, y1, x, y } => PathCmd::QuadTo {
                x1: x1 + dx,
                y1: y1 + dy,
                x: x + dx,
                y: y + dy,
            },
            PathCmd::CurveTo { x1, y1, x2, y2, x, y } => PathCmd::CurveTo {
                x1: x1 + dx,
                y1: y1 + dy,
                x2: x2 + dx,
                y2: y2 + dy,
                x: x + dx,
                y: y + dy,
            },
            PathCmd::Close => PathCmd::Close,
        };
        out.push(moved);
        i += 1;
    }
    out
}

} // verus!
