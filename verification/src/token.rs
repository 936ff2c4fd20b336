//! The tokenizer: classifies a text stream into Word, Whitespace and Emoji
//! tokens. Three families of emoji notation are recognised, tried in this
//! order at every position: canonical Unicode emoji sequences (longest match
//! first), `:name:` shortcodes, and external-id markers of the shape
//! `<a?:name:digits>` with a 17- to 22-digit numeric id. A span that matches
//! a family syntactically but does not resolve against the emoji tables is
//! emitted as literal text, never an error.

use vstd::prelude::*;

use crate::chars::{
    digits_value, is_digit_char, is_digit_char_exec, is_name_char, is_name_char_exec,
    is_shortcode_char, is_shortcode_char_exec, is_ws_char, is_whitespace_char,
};
use crate::registry::{EmojiIndex, EmojiIndexView};

verus! {

/// The stand-in character written where an emoji was parsed out of a text.
pub const PLACEHOLDER_EMOJI: char = '\u{1f600}';

/// The variation selector that carries no layout meaning and is dropped from
/// reconstructed plain text.
pub const VARIATION_SELECTOR: char = '\u{fe0f}';

/// A resolved emoji: a canonical Unicode form, or a platform-specific
/// numeric id from an external-id marker.
#[derive(Debug, Clone, PartialEq)]
pub enum EmojiType {
    Regular(String),
    Discord(u64),
}

/// A classified span of input text.
#[derive(Debug, Clone, PartialEq)]
pub enum Token {
    Word(String),
    Emoji(EmojiType),
    WhiteSpace,
    Char(char),
}

/// The mathematical value of an [`EmojiType`].
pub enum EmojiTypeModel {
    Regular(Seq<char>),
    Discord(u64),
}

/// The mathematical value of a [`Token`].
pub enum TokenModel {
    Word(Seq<char>),
    Emoji(EmojiTypeModel),
    WhiteSpace,
    Char(char),
}

impl DeepView for EmojiType {
    type V = EmojiTypeModel;

    open spec fn deep_view(&self) -> EmojiTypeModel {
        match self {
            EmojiType::Regular(s) => EmojiTypeModel::Regular(s@),
            EmojiType::Discord(id) => EmojiTypeModel::Discord(*id),
        }
    }
}

impl DeepView for Token {
    type V = TokenModel;

    open spec fn deep_view(&self) -> TokenModel {
        match self {
            Token::Word(s) => TokenModel::Word(s@),
            Token::Emoji(e) => TokenModel::Emoji(e.deep_view()),
            Token::WhiteSpace => TokenModel::WhiteSpace,
            Token::Char(c) => TokenModel::Char(*c),
        }
    }
}

// ---------------------------------------------------------------------------
// Span decomposition: how the scanner cuts the text at a given position.
// ---------------------------------------------------------------------------

/// Whether `p` occurs in `t` starting at `pos`.
pub open spec fn is_prefix_of(p: Seq<char>, t: Seq<char>, pos: int) -> bool {
    &&& 0 <= pos
    &&& pos + p.len() <= t.len()
    &&& p == t.subrange(pos, pos + p.len())
}

/// The emoji table entry matched at `pos`: among the entries that occur at
/// `pos`, one of maximal length, and among those the first in table order.
/// Longest match first keeps a multi-codepoint sequence from being shadowed
/// by a shorter entry that is its prefix.
pub open spec fn best_entry_from(
    entries: Seq<Seq<char>>,
    text: Seq<char>,
    pos: int,
    j: int,
) -> Option<int>
    decreases entries.len() - j,
{
    if j < 0 || j >= entries.len() {
        None
    } else {
        let rest = best_entry_from(entries, text, pos, j + 1);
        if entries[j].len() >= 1 && is_prefix_of(entries[j], text, pos) {
            match rest {
                Some(k) => if entries[k].len() > entries[j].len() {
                    rest
                } else {
                    Some(j)
                },
                None => Some(j),
            }
        } else {
            rest
        }
    }
}

pub open spec fn best_entry(entries: Seq<Seq<char>>, text: Seq<char>, pos: int) -> Option<int> {
    best_entry_from(entries, text, pos, 0)
}

pub proof fn lemma_best_entry_from_ok(entries: Seq<Seq<char>>, text: Seq<char>, pos: int, j: int)
    ensures
        match best_entry_from(entries, text, pos, j) {
            Some(k) => {
                &&& j <= k < entries.len()
                &&& entries[k].len() >= 1
                &&& is_prefix_of(entries[k], text, pos)
            },
            None => true,
        },
    decreases entries.len() - j,
{
    if 0 <= j < entries.len() {
        lemma_best_entry_from_ok(entries, text, pos, j + 1);
    }
}

/// The length of the run of characters satisfying `f` that starts at `pos`.
pub open spec fn run_while(text: Seq<char>, pos: int, f: spec_fn(char) -> bool) -> int
    decreases text.len() - pos,
{
    if pos < 0 || pos >= text.len() {
        0
    } else if f(text[pos]) {
        1 + run_while(text, pos + 1, f)
    } else {
        0
    }
}

pub open spec fn sc_char_fn() -> spec_fn(char) -> bool {
    |c: char| is_shortcode_char(c)
}

pub open spec fn name_char_fn() -> spec_fn(char) -> bool {
    |c: char| is_name_char(c)
}

pub open spec fn digit_char_fn() -> spec_fn(char) -> bool {
    |c: char| is_digit_char(c)
}

/// The length of the `:name:` span at `pos`, colons included, where one
/// occurs: a colon, one to 32 shortcode characters, and a closing colon.
pub open spec fn shortcode_span_len(text: Seq<char>, pos: int) -> Option<int> {
    if 0 <= pos < text.len() && text[pos] == ':' {
        let r = run_while(text, pos + 1, sc_char_fn());
        if 1 <= r <= 32 && pos + 1 + r < text.len() && text[pos + 1 + r] == ':' {
            Some(r + 2)
        } else {
            None
        }
    } else {
        None
    }
}

/// The shape of an external-id span: where its digits stand and where the
/// whole span ends.
pub struct ExtShape {
    pub dstart: int,
    pub dlen: int,
    pub end: int,
}

/// The external-id marker at `pos`, where one occurs: `<`, an optional `a`,
/// `:`, a 2- to 32-character name, `:`, 17 to 22 digits, `>`.
pub open spec fn ext_span_shape(text: Seq<char>, pos: int) -> Option<ExtShape> {
    if 0 <= pos < text.len() && text[pos] == '<' {
        let base = if pos + 2 < text.len() && text[pos + 1] == 'a' && text[pos + 2] == ':' {
            pos + 3
        } else if pos + 1 < text.len() && text[pos + 1] == ':' {
            pos + 2
        } else {
            -1
        };
        if base >= 0 {
            let n = run_while(text, base, name_char_fn());
            if 2 <= n <= 32 && base + n < text.len() && text[base + n] == ':' {
                let d = run_while(text, base + n + 1, digit_char_fn());
                if 17 <= d <= 22 && base + n + 1 + d < text.len() && text[base + n + 1 + d] == '>' {
                    Some(ExtShape { dstart: base + n + 1, dlen: d, end: base + n + 1 + d + 1 })
                } else {
                    None
                }
            } else {
                None
            }
        } else {
            None
        }
    } else {
        None
    }
}

/// What kind of span the scanner cut.
pub enum SpanKind {
    /// A canonical emoji from the table; the raw text is the canonical form.
    Emo,
    /// A `:name:` shortcode shape.
    Short { name: Seq<char> },
    /// An external-id marker shape.
    Ext { digits: Seq<char> },
    /// A single character that started no other span.
    Single,
}

/// One span: the text it consumed and its kind.
pub struct SpanShape {
    pub raw: Seq<char>,
    pub kind: SpanKind,
}

/// The span the scanner cuts at `pos`: the families are tried in order
/// (emoji table, shortcode shape, external-id shape), falling back to a
/// single character.
pub open spec fn span_at(text: Seq<char>, pos: int, idx: EmojiIndexView) -> SpanShape {
    match best_entry(idx.entries, text, pos) {
        Some(k) => SpanShape { raw: idx.entries[k], kind: SpanKind::Emo },
        None => match shortcode_span_len(text, pos) {
            Some(l) => SpanShape {
                raw: text.subrange(pos, pos + l),
                kind: SpanKind::Short { name: text.subrange(pos + 1, pos + l - 1) },
            },
            None => match ext_span_shape(text, pos) {
                Some(e) => SpanShape {
                    raw: text.subrange(pos, e.end),
                    kind: SpanKind::Ext { digits: text.subrange(e.dstart, e.dstart + e.dlen) },
                },
                None => SpanShape { raw: text.subrange(pos, pos + 1), kind: SpanKind::Single },
            },
        },
    }
}

/// Every span consumes at least one character, stays inside the text, and
/// its raw text is exactly what it covers.
pub proof fn lemma_span_at_ok(text: Seq<char>, pos: int, idx: EmojiIndexView)
    requires
        0 <= pos < text.len(),
    ensures
        1 <= span_at(text, pos, idx).raw.len(),
        pos + span_at(text, pos, idx).raw.len() <= text.len(),
        span_at(text, pos, idx).raw == text.subrange(
            pos,
            pos + span_at(text, pos, idx).raw.len(),
        ),
{
    lemma_best_entry_from_ok(idx.entries, text, pos, 0);
    match best_entry(idx.entries, text, pos) {
        Some(k) => {},
        None => {
            match shortcode_span_len(text, pos) {
                Some(l) => {
                    lemma_run_while_bound(text, pos + 1, sc_char_fn());
                },
                None => {
                    match ext_span_shape(text, pos) {
                        Some(e) => {
                            lemma_ext_shape_bounds(text, pos);
                        },
                        None => {},
                    }
                },
            }
        },
    }
}

pub proof fn lemma_run_while_bound(text: Seq<char>, pos: int, f: spec_fn(char) -> bool)
    requires
        0 <= pos <= text.len(),
    ensures
        0 <= run_while(text, pos, f),
        pos + run_while(text, pos, f) <= text.len(),
    decreases text.len() - pos,
{
    if pos < text.len() && f(text[pos]) {
        lemma_run_while_bound(text, pos + 1, f);
    }
}

// ---------------------------------------------------------------------------
// Classification: what a span becomes under the feature flags.
// ---------------------------------------------------------------------------

/// How one span is classified.
pub enum SpanClass {
    /// The span resolved to an emoji.
    CEmoji(EmojiTypeModel),
    /// A single whitespace character.
    CWs,
    /// A lone variation selector: dropped from the token stream.
    CDrop,
    /// Literal text, accumulated into the surrounding word.
    CLit,
}

/// The canonical emoji that `name` resolves to in the shortcode index:
/// the first alias with that name.
pub open spec fn lookup_shortcode_from(
    shortcodes: Seq<(Seq<char>, Seq<char>)>,
    name: Seq<char>,
    j: int,
) -> Option<Seq<char>>
    decreases shortcodes.len() - j,
{
    if j < 0 || j >= shortcodes.len() {
        None
    } else if shortcodes[j].0 == name {
        Some(shortcodes[j].1)
    } else {
        lookup_shortcode_from(shortcodes, name, j + 1)
    }
}

pub open spec fn lookup_shortcode(idx: EmojiIndexView, name: Seq<char>) -> Option<Seq<char>> {
    lookup_shortcode_from(idx.shortcodes, name, 0)
}

/// Classifies one span. Canonical emoji always resolve; a shortcode resolves
/// only when shortcode parsing is enabled and the name is known; an
/// external-id marker resolves only when external-id parsing is enabled and
/// its digits fit a 64-bit id. Anything else is literal text, except a
/// whitespace character and a lone variation selector.
pub open spec fn classify_span(
    sp: SpanShape,
    allow_shortcodes: bool,
    allow_external: bool,
    idx: EmojiIndexView,
) -> SpanClass {
    match sp.kind {
        SpanKind::Emo => SpanClass::CEmoji(EmojiTypeModel::Regular(sp.raw)),
        SpanKind::Short { name } => if allow_shortcodes {
            match lookup_shortcode(idx, name) {
                Some(canon) => SpanClass::CEmoji(EmojiTypeModel::Regular(canon)),
                None => SpanClass::CLit,
            }
        } else {
            SpanClass::CLit
        },
        SpanKind::Ext { digits } => if allow_external && digits_value(digits) <= u64::MAX {
            SpanClass::CEmoji(EmojiTypeModel::Discord(digits_value(digits) as u64))
        } else {
            SpanClass::CLit
        },
        SpanKind::Single => if is_ws_char(sp.raw[0]) {
            SpanClass::CWs
        } else if sp.raw[0] == VARIATION_SELECTOR {
            SpanClass::CDrop
        } else {
            SpanClass::CLit
        },
    }
}

// ---------------------------------------------------------------------------
// The token stream: spans folded into coalesced tokens.
// ---------------------------------------------------------------------------

/// The word token that a non-empty literal buffer flushes to.
pub open spec fn flush_word(buf: Seq<char>) -> Seq<TokenModel> {
    if buf.len() > 0 {
        seq![TokenModel::Word(buf)]
    } else {
        Seq::empty()
    }
}

/// The guarded length of the span at `pos`: equal to the span's real length
/// (see [`lemma_span_at_ok`]), written so that the recursion visibly
/// advances.
pub open spec fn span_step(text: Seq<char>, pos: int, idx: EmojiIndexView) -> int {
    let sp = span_at(text, pos, idx);
    if 1 <= sp.raw.len() && pos + sp.raw.len() <= text.len() {
        sp.raw.len() as int
    } else {
        1
    }
}

/// The tokens of `text` from `pos` on, with `buf` the literal text already
/// accumulated for the word in progress. Consecutive literal spans coalesce
/// into one Word token; whitespace and emoji spans flush the word first.
pub open spec fn tokens_from(
    text: Seq<char>,
    pos: int,
    allow_shortcodes: bool,
    allow_external: bool,
    idx: EmojiIndexView,
    buf: Seq<char>,
) -> Seq<TokenModel>
    decreases text.len() - pos,
{
    if pos < 0 || pos >= text.len() {
        flush_word(buf)
    } else {
        let sp = span_at(text, pos, idx);
        let np = pos + span_step(text, pos, idx);
        match classify_span(sp, allow_shortcodes, allow_external, idx) {
            SpanClass::CLit => tokens_from(
                text,
                np,
                allow_shortcodes,
                allow_external,
                idx,
                buf + text.subrange(pos, np),
            ),
            SpanClass::CDrop => tokens_from(text, np, allow_shortcodes, allow_external, idx, buf),
            SpanClass::CWs => flush_word(buf) + seq![TokenModel::WhiteSpace] + tokens_from(
                text,
                np,
                allow_shortcodes,
                allow_external,
                idx,
                Seq::empty(),
            ),
            SpanClass::CEmoji(e) => flush_word(buf) + seq![TokenModel::Emoji(e)] + tokens_from(
                text,
                np,
                allow_shortcodes,
                allow_external,
                idx,
                Seq::empty(),
            ),
        }
    }
}

/// The token stream of a whole text.
pub open spec fn spec_tokenize(
    text: Seq<char>,
    allow_shortcodes: bool,
    allow_external: bool,
    idx: EmojiIndexView,
) -> Seq<TokenModel> {
    tokens_from(text, 0, allow_shortcodes, allow_external, idx, Seq::empty())
}

pub proof fn lemma_ext_shape_bounds(text: Seq<char>, pos: int)
    requires
        0 <= pos < text.len(),
        ext_span_shape(text, pos) is Some,
    ensures
        ({
            let e = ext_span_shape(text, pos)->Some_0;
            &&& pos + 1 < e.dstart
            &&& e.dstart + e.dlen < e.end <= text.len()
            &&& e.end - pos >= 2
        }),
{
    let e = ext_span_shape(text, pos)->Some_0;
    let base = if pos + 2 < text.len() && text[pos + 1] == 'a' && text[pos + 2] == ':' {
        pos + 3
    } else {
        pos + 2
    };
    lemma_run_while_bound(text, base, name_char_fn());
    let n = run_while(text, base, name_char_fn());
    lemma_run_while_bound(text, base + n + 1, digit_char_fn());
}

// ---------------------------------------------------------------------------
// The executable scanner.
// ---------------------------------------------------------------------------

/// Whether `p` occurs in `t` at position `pos`.
fn is_prefix_at(p: &Vec<char>, t: &Vec<char>, pos: usize) -> (r: bool)
    requires
        pos <= t@.len(),
    ensures
        r == is_prefix_of(p@, t@, pos as int),
{
    let n = t.len();
    if p.len() > n - pos {
        proof {
            assert(!is_prefix_of(p@, t@, pos as int));
        }
        return false;
    }
    let mut i: usize = 0;
    while i < p.len()
        invariant
            n == t@.len(),
            pos + p@.len() <= t@.len(),
            i <= p@.len(),
            forall|k: int| 0 <= k < i ==> p@[k] == t@[pos + k],
        decreases p@.len() - i,
    {
        if p[i] != t[pos + i] {
            proof {
                assert(t@.subrange(pos as int, pos + p@.len())[i as int] == t@[pos + i]);
            }
            return false;
        }
        i += 1;
    }
    proof {
        assert(p@ =~= t@.subrange(pos as int, pos + p@.len()));
    }
    true
}

/// The best emoji-table match at `pos`, as [`best_entry`] describes it.
fn best_entry_exec(index: &EmojiIndex, text: &Vec<char>, pos: usize) -> (r: Option<usize>)
    requires
        pos <= text@.len(),
    ensures
        match r {
            Some(k) => k < index.entries@.len() && best_entry(index@.entries, text@, pos as int)
                == Some(k as int),
            None => best_entry(index@.entries, text@, pos as int) is None,
        },
{
    let ghost entries = index@.entries;
    let n = index.entries.len();
    let mut j: usize = n;
    let mut best: Option<usize> = None;
    proof {
        assert(best_entry_from(entries, text@, pos as int, n as int) is None);
    }
    while j > 0
        invariant
            j <= n,
            n == index.entries@.len(),
            entries == index@.entries,
            pos <= text@.len(),
            match best {
                Some(k) => k < n && best_entry_from(entries, text@, pos as int, j as int) == Some(
                    k as int,
                ),
                None => best_entry_from(entries, text@, pos as int, j as int) is None,
            },
        decreases j,
    {
        j -= 1;
        let entry = &index.entries[j];
        proof {
            assert(entries[j as int] == entry.chars@);
        }
        if entry.chars.len() >= 1 && is_prefix_at(&entry.chars, text, pos) {
            match best {
                Some(k) => {
                    proof {
                        assert(entries[k as int] == index.entries@[k as int].chars@);
                    }
                    if index.entries[k].chars.len() > entry.chars.len() {
                    } else {
                        best = Some(j);
                    }
                },
                None => {
                    best = Some(j);
                },
            }
        }
    }
    best
}

/// The length of the run of shortcode characters starting at `pos`.
fn run_shortcode_chars(text: &Vec<char>, pos: usize) -> (r: usize)
    requires
        pos <= text@.len(),
    ensures
        r == run_while(text@, pos as int, sc_char_fn()),
        pos + r <= text@.len(),
{
    let mut i: usize = pos;
    while i < text.len() && is_shortcode_char_exec(text[i])
        invariant
            pos <= i <= text@.len(),
            run_while(text@, pos as int, sc_char_fn()) == i - pos + run_while(
                text@,
                i as int,
                sc_char_fn(),
            ),
            forall|k: int| pos <= k < i ==> sc_char_fn()(text@[k]),
        decreases text@.len() - i,
    {
        i += 1;
    }
    proof {
        assert(run_while(text@, i as int, sc_char_fn()) == 0);
    }
    i - pos
}

/// The length of the run of name characters starting at `pos`.
fn run_name_chars(text: &Vec<char>, pos: usize) -> (r: usize)
    requires
        pos <= text@.len(),
    ensures
        r == run_while(text@, pos as int, name_char_fn()),
        pos + r <= text@.len(),
{
    let mut i: usize = pos;
    while i < text.len() && is_name_char_exec(text[i])
        invariant
            pos <= i <= text@.len(),
            run_while(text@, pos as int, name_char_fn()) == i - pos + run_while(
                text@,
                i as int,
                name_char_fn(),
            ),
            forall|k: int| pos <= k < i ==> name_char_fn()(text@[k]),
        decreases text@.len() - i,
    {
        i += 1;
    }
    proof {
        assert(run_while(text@, i as int, name_char_fn()) == 0);
    }
    i - pos
}

/// The length of the run of digits starting at `pos`.
fn run_digit_chars(text: &Vec<char>, pos: usize) -> (r: usize)
    requires
        pos <= text@.len(),
    ensures
        r == run_while(text@, pos as int, digit_char_fn()),
        pos + r <= text@.len(),
        forall|k: int| pos <= k < pos + r ==> is_digit_char(#[trigger] text@[k]),
{
    let mut i: usize = pos;
    while i < text.len() && is_digit_char_exec(text[i])
        invariant
            pos <= i <= text@.len(),
            run_while(text@, pos as int, digit_char_fn()) == i - pos + run_while(
                text@,
                i as int,
                digit_char_fn(),
            ),
            forall|k: int| pos <= k < i ==> is_digit_char(#[trigger] text@[k]),
        decreases text@.len() - i,
    {
        i += 1;
    }
    proof {
        assert(run_while(text@, i as int, digit_char_fn()) == 0);
    }
    i - pos
}

/// The length of the shortcode span at `pos`, where one occurs.
fn match_shortcode(text: &Vec<char>, pos: usize) -> (r: Option<usize>)
    requires
        pos < text@.len(),
    ensures
        match r {
            Some(l) => shortcode_span_len(text@, pos as int) == Some(l as int) && pos + l
                <= text@.len(),
            None => shortcode_span_len(text@, pos as int) is None,
        },
{
    let n = text.len();
    if text[pos] != ':' {
        return None;
    }
    let run = run_shortcode_chars(text, pos + 1);
    if 1 <= run && run <= 32 && pos + 1 + run < n && text[pos + 1 + run] == ':' {
        Some(run + 2)
    } else {
        None
    }
}

/// The external-id span at `pos`, where one occurs: its total length and
/// where its digits stand.
fn match_ext(text: &Vec<char>, pos: usize) -> (r: Option<(usize, usize, usize)>)
    requires
        pos < text@.len(),
    ensures
        match r {
            Some((l, ds, dl)) => {
                &&& ext_span_shape(text@, pos as int) matches Some(e) && e.end == pos + l
                    && e.dstart == ds && e.dlen == dl
                &&& pos < ds && ds + dl < pos + l <= text@.len()
                &&& forall|k: int| ds <= k < ds + dl ==> is_digit_char(#[trigger] text@[k])
            },
            None => ext_span_shape(text@, pos as int) is None,
        },
{
    let m = text.len();
    if text[pos] != '<' {
        return None;
    }
    let base: usize = if m - pos > 2 && text[pos + 1] == 'a' && text[pos + 2] == ':' {
        pos + 3
    } else if m - pos > 1 && text[pos + 1] == ':' {
        pos + 2
    } else {
        return None;
    };
    let n = run_name_chars(text, base);
    if !(2 <= n && n <= 32 && base + n < m && text[base + n] == ':') {
        return None;
    }
    let d = run_digit_chars(text, base + n + 1);
    if !(17 <= d && d <= 22 && base + n + 1 + d < m && text[base + n + 1 + d] == '>') {
        return None;
    }
    Some((base + n + 1 + d + 1 - pos, base + n + 1, d))
}

/// Whether `a` holds exactly the characters `text[from..to]`.
fn chars_eq_range(a: &Vec<char>, text: &Vec<char>, from: usize, to: usize) -> (r: bool)
    requires
        from <= to <= text@.len(),
    ensures
        r == (a@ == text@.subrange(from as int, to as int)),
{
    let ghost sub = text@.subrange(from as int, to as int);
    if a.len() != to - from {
        proof {
            assert(a@ != sub);
        }
        return false;
    }
    let mut i: usize = 0;
    while i < a.len()
        invariant
            from <= to <= text@.len(),
            a@.len() == to - from,
            i <= a@.len(),
            sub == text@.subrange(from as int, to as int),
            forall|k: int| 0 <= k < i ==> a@[k] == sub[k],
        decreases a@.len() - i,
    {
        proof {
            assert(sub[i as int] == text@[from + i]);
        }
        if a[i] != text[from + i] {
            proof {
                assert(a@[i as int] != sub[i as int]);
            }
            return false;
        }
        i += 1;
    }
    proof {
        assert(a@ =~= sub);
    }
    true
}

/// Resolves a shortcode name, `text[from..to]`, against the index: the
/// canonical form of the first alias with that name.
fn lookup_shortcode_exec(index: &EmojiIndex, text: &Vec<char>, from: usize, to: usize) -> (r:
    Option<String>)
    requires
        from <= to <= text@.len(),
    ensures
        match r {
            Some(s) => lookup_shortcode(index@, text@.subrange(from as int, to as int)) == Some(
                s@,
            ),
            None => lookup_shortcode(index@, text@.subrange(from as int, to as int)) is None,
        },
{
    let ghost name = text@.subrange(from as int, to as int);
    let n = index.shortcodes.len();
    let mut j: usize = 0;
    while j < n
        invariant
            j <= n,
            n == index.shortcodes@.len(),
            from <= to <= text@.len(),
            name == text@.subrange(from as int, to as int),
            lookup_shortcode_from(index@.shortcodes, name, 0) == lookup_shortcode_from(
                index@.shortcodes,
                name,
                j as int,
            ),
        decreases n - j,
    {
        let alias = &index.shortcodes[j];
        proof {
            assert(index@.shortcodes[j as int] == (alias.name@, alias.emoji@));
        }
        if chars_eq_range(&alias.name, text, from, to) {
            return Some(crate::chars::chars_to_string(&alias.emoji));
        }
        j += 1;
    }
    None
}

/// What the scanner does with one span, with resolved payloads.
pub(crate) enum SpanStep {
    Emoji(EmojiType),
    Ws,
    Drop,
    Lit,
}

/// Scans the span at `pos` and classifies it under the flags: its length and
/// what it becomes, exactly as [`span_at`] and [`classify_span`] describe.
pub(crate) fn scan_span(
    text: &Vec<char>,
    pos: usize,
    allow_shortcodes: bool,
    allow_external: bool,
    index: &EmojiIndex,
) -> (r: (usize, SpanStep))
    requires
        pos < text@.len(),
    ensures
        ({
            let sp = span_at(text@, pos as int, index@);
            let cls = classify_span(sp, allow_shortcodes, allow_external, index@);
            &&& r.0 == sp.raw.len()
            &&& 1 <= r.0
            &&& pos + r.0 <= text@.len()
            &&& match r.1 {
                SpanStep::Emoji(e) => cls == SpanClass::CEmoji(e.deep_view()),
                SpanStep::Ws => cls == SpanClass::CWs,
                SpanStep::Drop => cls == SpanClass::CDrop,
                SpanStep::Lit => cls == SpanClass::CLit,
            }
        }),
{
    let n = text.len();
    proof {
        lemma_span_at_ok(text@, pos as int, index@);
    }
    match best_entry_exec(index, text, pos) {
        Some(k) => {
            let entry = &index.entries[k];
            proof {
                assert(index@.entries[k as int] == entry.chars@);
            }
            let s = crate::chars::chars_to_string(&entry.chars);
            (entry.chars.len(), SpanStep::Emoji(EmojiType::Regular(s)))
        },
        None => {
            match match_shortcode(text, pos) {
                Some(l) => {
                    if allow_shortcodes {
                        match lookup_shortcode_exec(index, text, pos + 1, pos + l - 1) {
                            Some(s) => (l, SpanStep::Emoji(EmojiType::Regular(s))),
                            None => (l, SpanStep::Lit),
                        }
                    } else {
                        (l, SpanStep::Lit)
                    }
                },
                None => {
                    match match_ext(text, pos) {
                        Some((l, ds, dl)) => {
                            if allow_external {
                                match crate::chars::parse_u64_digits(text, ds, ds + dl) {
                                    Some(v) => (l, SpanStep::Emoji(EmojiType::Discord(v))),
                                    None => (l, SpanStep::Lit),
                                }
                            } else {
                                (l, SpanStep::Lit)
                            }
                        },
                        None => {
                            let c = text[pos];
                            proof {
                                assert(text@.subrange(pos as int, pos as int + 1)[0] == text@[
                                    pos as int
                                ]);
                            }
                            if is_whitespace_char(c) {
                                (1, SpanStep::Ws)
                            } else if c == VARIATION_SELECTOR {
                                (1, SpanStep::Drop)
                            } else {
                                (1, SpanStep::Lit)
                            }
                        },
                    }
                },
            }
        },
    }
}

/// Appends `text[from..to]` to `buf`.
fn extend_chars_range(buf: &mut Vec<char>, text: &Vec<char>, from: usize, to: usize)
    requires
        from <= to <= text@.len(),
    ensures
        final(buf)@ == old(buf)@ + text@.subrange(from as int, to as int),
{
    let mut i: usize = from;
    while i < to
        invariant
            from <= i <= to <= text@.len(),
            buf@ == old(buf)@ + text@.subrange(from as int, i as int),
        decreases to - i,
    {
        buf.push(text[i]);
        proof {
            assert(old(buf)@ + text@.subrange(from as int, i as int + 1) =~= (old(buf)@
                + text@.subrange(from as int, i as int)).push(text@[i as int]));
        }
        i += 1;
    }
    proof {
        assert(buf@ =~= old(buf)@ + text@.subrange(from as int, to as int));
    }
}

/// Tokenizes a character vector, as [`spec_tokenize`] describes.
pub fn tokenize_chars(
    text: &Vec<char>,
    parse_shortcodes: bool,
    parse_discord_emojis: bool,
    index: &EmojiIndex,
) -> (tokens: Vec<Token>)
    ensures
        tokens.deep_view() == spec_tokenize(
            text@,
            parse_shortcodes,
            parse_discord_emojis,
            index@,
        ),
{
    let ghost idx = index@;
    let n = text.len();
    let mut pos: usize = 0;
    let mut out: Vec<Token> = Vec::new();
    let mut buf: Vec<char> = Vec::new();
    while pos < n
        invariant
            n == text@.len(),
            pos <= n,
            idx == index@,
            spec_tokenize(text@, parse_shortcodes, parse_discord_emojis, idx) == out.deep_view()
                + tokens_from(
                text@,
                pos as int,
                parse_shortcodes,
                parse_discord_emojis,
                idx,
                buf@,
            ),
        decreases n - pos,
    {
        let ghost old_out = out.deep_view();
        let ghost old_buf = buf@;
        let ghost sp = span_at(text@, pos as int, idx);
        let ghost cls = classify_span(sp, parse_shortcodes, parse_discord_emojis, idx);
        proof {
            lemma_span_at_ok(text@, pos as int, idx);
            assert(span_step(text@, pos as int, idx) == sp.raw.len() as int);
        }
        let (l, step) = scan_span(text, pos, parse_shortcodes, parse_discord_emojis, index);
        let ghost np = pos + l;
        match step {
            SpanStep::Lit => {
                extend_chars_range(&mut buf, text, pos, pos + l);
            },
            SpanStep::Drop => {},
            SpanStep::Ws => {
                if buf.len() > 0 {
                    let w = crate::chars::chars_to_string(&buf);
                    out.push(Token::Word(w));
                    proof {
                        assert(out.deep_view() =~= old_out.push(TokenModel::Word(old_buf)));
                    }
                    buf = Vec::new();
                }
                let ghost mid_out = out.deep_view();
                out.push(Token::WhiteSpace);
                proof {
                    assert(out.deep_view() =~= mid_out.push(TokenModel::WhiteSpace));
                    assert(out.deep_view() =~= old_out + flush_word(old_buf) + seq![
                        TokenModel::WhiteSpace
                    ]);
                }
            },
            SpanStep::Emoji(e) => {
                if buf.len() > 0 {
                    let w = crate::chars::chars_to_string(&buf);
                    out.push(Token::Word(w));
                    proof {
                        assert(out.deep_view() =~= old_out.push(TokenModel::Word(old_buf)));
                    }
                    buf = Vec::new();
                }
                let ghost mid_out = out.deep_view();
                let ghost em = e.deep_view();
                out.push(Token::Emoji(e));
                proof {
                    assert(out.deep_view() =~= mid_out.push(TokenModel::Emoji(em)));
                    assert(out.deep_view() =~= old_out + flush_word(old_buf) + seq![
                        TokenModel::Emoji(em)
                    ]);
                }
            },
        }
        pos += l;
        proof {
            assert(tokens_from(text@, np - l, parse_shortcodes, parse_discord_emojis, idx, old_buf)
                == match cls {
                SpanClass::CLit => tokens_from(
                    text@,
                    np,
                    parse_shortcodes,
                    parse_discord_emojis,
                    idx,
                    old_buf + text@.subrange(np - l, np),
                ),
                SpanClass::CDrop => tokens_from(
                    text@,
                    np,
                    parse_shortcodes,
                    parse_discord_emojis,
                    idx,
                    old_buf,
                ),
                SpanClass::CWs => flush_word(old_buf) + seq![TokenModel::WhiteSpace] + tokens_from(
                    text@,
                    np,
                    parse_shortcodes,
                    parse_discord_emojis,
                    idx,
                    Seq::empty(),
                ),
                SpanClass::CEmoji(e) => flush_word(old_buf) + seq![TokenModel::Emoji(e)]
                    + tokens_from(
                    text@,
                    np,
                    parse_shortcodes,
                    parse_discord_emojis,
                    idx,
                    Seq::empty(),
                ),
            });
            match cls {
                SpanClass::CLit => {
                    assert(buf@ =~= old_buf + text@.subrange(np - l, np));
                },
                SpanClass::CDrop => {},
                SpanClass::CWs => {
                    assert(buf@ =~= Seq::<char>::empty());
                    assert(out.deep_view() + tokens_from(
                        text@,
                        pos as int,
                        parse_shortcodes,
                        parse_discord_emojis,
                        idx,
                        buf@,
                    ) =~= old_out + (flush_word(old_buf) + seq![TokenModel::WhiteSpace]
                        + tokens_from(
                        text@,
                        pos as int,
                        parse_shortcodes,
                        parse_discord_emojis,
                        idx,
                        Seq::empty(),
                    )));
                },
                SpanClass::CEmoji(e) => {
                    assert(buf@ =~= Seq::<char>::empty());
                    assert(out.deep_view() + tokens_from(
                        text@,
                        pos as int,
                        parse_shortcodes,
                        parse_discord_emojis,
                        idx,
                        buf@,
                    ) =~= old_out + (flush_word(old_buf) + seq![TokenModel::Emoji(e)]
                        + tokens_from(
                        text@,
                        pos as int,
                        parse_shortcodes,
                        parse_discord_emojis,
                        idx,
                        Seq::empty(),
                    )));
                },
            }
        }
    }
    if buf.len() > 0 {
        let ghost old_out = out.deep_view();
        let ghost old_buf = buf@;
        let w = crate::chars::chars_to_string(&buf);
        out.push(Token::Word(w));
        proof {
            assert(out.deep_view() =~= old_out.push(TokenModel::Word(old_buf)));
            assert(out.deep_view() =~= old_out + flush_word(old_buf));
        }
    } else {
        proof {
            assert(out.deep_view() =~= out.deep_view() + flush_word(buf@));
        }
    }
    out
}

/// Tokenizes `text` into Word, Whitespace and Emoji tokens, against the
/// tables in `index`. Unicode emoji are always recognised; `:name:`
/// shortcodes and `<a:name:id>` external-id markers only where their flag
/// allows. A span that does not resolve stays literal text.
pub fn tokenize(
    text: &str,
    parse_shortcodes: bool,
    parse_discord_emojis: bool,
    index: &EmojiIndex,
) -> (tokens: Vec<Token>)
    ensures
        tokens.deep_view() == spec_tokenize(
            text@,
            parse_shortcodes,
            parse_discord_emojis,
            index@,
        ),
{
    let chars = crate::chars::str_to_chars(text);
    tokenize_chars(&chars, parse_shortcodes, parse_discord_emojis, index)
}

// ---------------------------------------------------------------------------
// Reconstruction: tokens back to text.
// ---------------------------------------------------------------------------

/// The text an emoji token stands for: its canonical form, or the
/// placeholder character for an external id.
pub open spec fn emoji_text(e: EmojiTypeModel) -> Seq<char> {
    match e {
        EmojiTypeModel::Regular(s) => s,
        EmojiTypeModel::Discord(_) => seq![PLACEHOLDER_EMOJI],
    }
}

/// The text one token stands for. A whitespace token reads back as a single
/// space.
pub open spec fn token_text(t: TokenModel) -> Seq<char> {
    match t {
        TokenModel::Word(w) => w,
        TokenModel::WhiteSpace => seq![' '],
        TokenModel::Emoji(e) => emoji_text(e),
        TokenModel::Char(c) => seq![c],
    }
}

/// The text a token sequence stands for.
pub open spec fn tokens_text(ts: Seq<TokenModel>) -> Seq<char>
    decreases ts.len(),
{
    if ts.len() == 0 {
        Seq::empty()
    } else {
        token_text(ts[0]) + tokens_text(ts.drop_first())
    }
}

pub proof fn lemma_tokens_text_single(t: TokenModel)
    ensures
        tokens_text(seq![t]) == token_text(t),
{
    assert(seq![t].drop_first() =~= Seq::<TokenModel>::empty());
    assert(tokens_text(Seq::<TokenModel>::empty()) == Seq::<char>::empty());
    assert(tokens_text(seq![t]) =~= token_text(t));
}

pub proof fn lemma_flush_word_text(buf: Seq<char>)
    ensures
        tokens_text(flush_word(buf)) == buf,
{
    assert(tokens_text(Seq::<TokenModel>::empty()) == Seq::<char>::empty());
    if buf.len() > 0 {
        lemma_tokens_text_single(TokenModel::Word(buf));
    } else {
        assert(tokens_text(flush_word(buf)) =~= buf);
    }
}

pub proof fn lemma_tokens_text_concat(a: Seq<TokenModel>, b: Seq<TokenModel>)
    ensures
        tokens_text(a + b) == tokens_text(a) + tokens_text(b),
    decreases a.len(),
{
    if a.len() == 0 {
        assert(a + b =~= b);
        assert(tokens_text(a) + tokens_text(b) =~= tokens_text(b));
    } else {
        lemma_tokens_text_concat(a.drop_first(), b);
        assert((a + b).drop_first() =~= a.drop_first() + b);
        assert(token_text(a[0]) + (tokens_text(a.drop_first()) + tokens_text(b)) =~= (token_text(
            a[0],
        ) + tokens_text(a.drop_first())) + tokens_text(b));
    }
}

/// Appends the text of one token to `s`.
fn push_token_text(s: &mut String, t: &Token)
    ensures
        final(s)@ == old(s)@ + token_text(t.deep_view()),
{
    match t {
        Token::Word(w) => {
            s.append(w.as_str());
        },
        Token::WhiteSpace => {
            crate::chars::push_char(s, ' ');
            proof {
                assert(old(s)@.push(' ') =~= old(s)@ + seq![' ']);
            }
        },
        Token::Emoji(e) => {
            match e {
                EmojiType::Regular(c) => {
                    s.append(c.as_str());
                },
                EmojiType::Discord(_) => {
                    crate::chars::push_char(s, PLACEHOLDER_EMOJI);
                    proof {
                        assert(old(s)@.push(PLACEHOLDER_EMOJI) =~= old(s)@ + seq![
                            PLACEHOLDER_EMOJI
                        ]);
                    }
                },
            }
        },
        Token::Char(c) => {
            crate::chars::push_char(s, *c);
            proof {
                assert(old(s)@.push(*c) =~= old(s)@ + seq![*c]);
            }
        },
    }
}

/// The text a token sequence stands for, with emoji tokens expanded to their
/// canonical form (or the placeholder, for external ids) and whitespace
/// tokens to single spaces.
pub fn tokens_string(tokens: &Vec<Token>) -> (s: String)
    ensures
        s@ == tokens_text(tokens.deep_view()),
{
    let ghost ts = tokens.deep_view();
    let mut s = String::new();
    let mut i: usize = 0;
    proof {
        assert(ts.skip(0) =~= ts);
        assert(Seq::<char>::empty() + tokens_text(ts) =~= tokens_text(ts));
    }
    while i < tokens.len()
        invariant
            i <= tokens@.len(),
            ts == tokens.deep_view(),
            ts.len() == tokens@.len(),
            tokens_text(ts) == s@ + tokens_text(ts.skip(i as int)),
        decreases tokens@.len() - i,
    {
        let ghost pre = s@;
        push_token_text(&mut s, &tokens[i]);
        proof {
            assert(tokens[i as int].deep_view() == ts[i as int]);
            assert(ts.skip(i as int)[0] == ts[i as int]);
            assert(ts.skip(i as int).drop_first() =~= ts.skip(i as int + 1));
            assert(pre + (token_text(ts[i as int]) + tokens_text(ts.skip(i as int + 1))) =~= (pre
                + token_text(ts[i as int])) + tokens_text(ts.skip(i as int + 1)));
        }
        i += 1;
    }
    proof {
        assert(ts.skip(ts.len() as int) =~= Seq::<TokenModel>::empty());
        assert(tokens_text(ts) =~= s@);
    }
    s
}

/// The round trip: a text whose whitespace is plain spaces and which holds
/// no variation selector reads back, from its tokens, exactly as it was,
/// when shortcode and external-id parsing are disabled. (With those enabled,
/// resolved shortcode and external-id spans normalize to their canonical
/// emoji, so the text they produced them from is not recoverable.)
pub proof fn lemma_tokenize_round_trip(text: Seq<char>, idx: EmojiIndexView)
    requires
        forall|i: int|
            0 <= i < text.len() ==> (is_ws_char(#[trigger] text[i]) ==> text[i] == ' ') && text[i]
                != VARIATION_SELECTOR,
    ensures
        tokens_text(spec_tokenize(text, false, false, idx)) == text,
{
    lemma_round_trip_from(text, 0, idx, Seq::empty());
    assert(Seq::<char>::empty() + text.skip(0) =~= text);
}

proof fn lemma_round_trip_from(text: Seq<char>, pos: int, idx: EmojiIndexView, buf: Seq<char>)
    requires
        0 <= pos <= text.len(),
        forall|i: int|
            pos <= i < text.len() ==> (is_ws_char(#[trigger] text[i]) ==> text[i] == ' ') && text[i]
                != VARIATION_SELECTOR,
    ensures
        tokens_text(tokens_from(text, pos, false, false, idx, buf)) == buf + text.skip(pos),
    decreases text.len() - pos,
{
    if pos >= text.len() {
        assert(text.skip(pos) =~= Seq::<char>::empty());
        if buf.len() > 0 {
            assert(tokens_text(flush_word(buf).drop_first()) == Seq::<char>::empty());
            assert(tokens_text(flush_word(buf)) =~= buf + text.skip(pos));
        } else {
            assert(tokens_text(flush_word(buf)) =~= buf + text.skip(pos));
        }
    } else {
        lemma_span_at_ok(text, pos, idx);
        let sp = span_at(text, pos, idx);
        let np = pos + span_step(text, pos, idx);
        assert(np == pos + sp.raw.len());
        lemma_round_trip_from(text, np, idx, buf + text.subrange(pos, np));
        lemma_round_trip_from(text, np, idx, Seq::empty());
        match classify_span(sp, false, false, idx) {
            SpanClass::CLit => {
                assert((buf + text.subrange(pos, np)) + text.skip(np) =~= buf + text.skip(pos));
            },
            SpanClass::CDrop => {
                // The span is a lone variation selector, which the text
                // cannot hold.
                assert(sp.raw[0] == text[pos]);
                assert(false);
            },
            SpanClass::CWs => {
                // A whitespace span is a single space character.
                assert(sp.raw[0] == text[pos]);
                assert(text[pos] == ' ');
                let toks = flush_word(buf) + seq![TokenModel::WhiteSpace] + tokens_from(
                    text,
                    np,
                    false,
                    false,
                    idx,
                    Seq::empty(),
                );
                lemma_tokens_text_concat(
                    flush_word(buf) + seq![TokenModel::WhiteSpace],
                    tokens_from(text, np, false, false, idx, Seq::empty()),
                );
                lemma_tokens_text_concat(flush_word(buf), seq![TokenModel::WhiteSpace]);
                lemma_flush_word_text(buf);
                lemma_tokens_text_single(TokenModel::WhiteSpace);
                assert(text.subrange(pos, np) =~= seq![text[pos]]);
                assert((buf + seq![' ']) + (Seq::<char>::empty() + text.skip(np)) =~= buf
                    + text.skip(pos));
            },
            SpanClass::CEmoji(e) => {
                // Only a canonical emoji span resolves when shortcode and
                // external-id parsing are off, and its raw text is its
                // canonical form.
                assert(sp.kind is Emo);
                assert(e == EmojiTypeModel::Regular(sp.raw));
                lemma_tokens_text_concat(
                    flush_word(buf) + seq![TokenModel::Emoji(e)],
                    tokens_from(text, np, false, false, idx, Seq::empty()),
                );
                lemma_tokens_text_concat(flush_word(buf), seq![TokenModel::Emoji(e)]);
                lemma_flush_word_text(buf);
                lemma_tokens_text_single(TokenModel::Emoji(e));
                assert((buf + sp.raw) + (Seq::<char>::empty() + text.skip(np)) =~= buf + text.skip(
                    pos,
                ));
            },
        }
    }
}


/// A copy of one token.
pub fn clone_token(t: &Token) -> (r: Token)
    ensures
        r.deep_view() == t.deep_view(),
{
    match t {
        Token::Word(w) => Token::Word(w.clone()),
        Token::WhiteSpace => Token::WhiteSpace,
        Token::Char(c) => Token::Char(*c),
        Token::Emoji(e) => match e {
            EmojiType::Regular(s) => Token::Emoji(EmojiType::Regular(s.clone())),
            EmojiType::Discord(id) => Token::Emoji(EmojiType::Discord(*id)),
        },
    }
}

/// How many emoji tokens a token sequence holds.
pub open spec fn count_emoji_tokens(ts: Seq<TokenModel>) -> int
    decreases ts.len(),
{
    if ts.len() == 0 {
        0
    } else {
        (if ts[0] is Emoji {
            1int
        } else {
            0int
        }) + count_emoji_tokens(ts.drop_first())
    }
}

pub proof fn lemma_count_emoji_tokens_concat(a: Seq<TokenModel>, b: Seq<TokenModel>)
    ensures
        count_emoji_tokens(a + b) == count_emoji_tokens(a) + count_emoji_tokens(b),
    decreases a.len(),
{
    if a.len() == 0 {
        assert(a + b =~= b);
    } else {
        lemma_count_emoji_tokens_concat(a.drop_first(), b);
        assert((a + b).drop_first() =~= a.drop_first() + b);
    }
}

} // verus!
