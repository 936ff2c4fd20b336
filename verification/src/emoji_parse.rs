//! Parsing emoji out of a text: every resolved emoji span is replaced by the
//! placeholder character and collected, in text order, into a list that a
//! later layout pass consumes one entry per placeholder.

use vstd::prelude::*;

use crate::chars::{is_digit_char, is_name_char, is_shortcode_char};
use crate::registry::{EmojiIndex, EmojiIndexView};
use crate::token::{
    count_emoji_tokens, flush_word, lemma_count_emoji_tokens_concat, spec_tokenize, tokens_from,
    TokenModel,
    best_entry, best_entry_from, classify_span, digit_char_fn, ext_span_shape, is_prefix_of,
    lemma_span_at_ok, name_char_fn, run_while, sc_char_fn, scan_span, shortcode_span_len, span_at,
    emoji_text, span_step, EmojiType, EmojiTypeModel, SpanClass, SpanStep, PLACEHOLDER_EMOJI,
    VARIATION_SELECTOR,
};

verus! {

/// What parsing a text down to plain glyphs leaves: the text with every
/// resolved emoji span replaced by the placeholder character, and the
/// resolved emoji in text order.
pub struct ParsedText {
    pub text: Seq<char>,
    pub emojis: Seq<EmojiTypeModel>,
}

/// The parsed form of `text` from `pos` on.
pub open spec fn parse_out_from(
    text: Seq<char>,
    pos: int,
    allow_shortcodes: bool,
    allow_external: bool,
    idx: EmojiIndexView,
) -> ParsedText
    decreases text.len() - pos,
{
    if pos < 0 || pos >= text.len() {
        ParsedText { text: Seq::empty(), emojis: Seq::empty() }
    } else {
        let sp = span_at(text, pos, idx);
        let np = pos + span_step(text, pos, idx);
        let rest = parse_out_from(text, np, allow_shortcodes, allow_external, idx);
        match classify_span(sp, allow_shortcodes, allow_external, idx) {
            SpanClass::CEmoji(e) => ParsedText {
                text: seq![PLACEHOLDER_EMOJI] + rest.text,
                emojis: seq![e] + rest.emojis,
            },
            SpanClass::CDrop => rest,
            SpanClass::CWs => ParsedText {
                text: text.subrange(pos, np) + rest.text,
                emojis: rest.emojis,
            },
            SpanClass::CLit => ParsedText {
                text: text.subrange(pos, np) + rest.text,
                emojis: rest.emojis,
            },
        }
    }
}

/// The parsed form of a whole text.
pub open spec fn spec_parse_out(
    text: Seq<char>,
    allow_shortcodes: bool,
    allow_external: bool,
    idx: EmojiIndexView,
) -> ParsedText {
    parse_out_from(text, 0, allow_shortcodes, allow_external, idx)
}

/// Appends `text[from..to]` to `s`.
fn push_chars_range(s: &mut String, text: &Vec<char>, from: usize, to: usize)
    requires
        from <= to <= text@.len(),
    ensures
        final(s)@ == old(s)@ + text@.subrange(from as int, to as int),
{
    let mut i: usize = from;
    while i < to
        invariant
            from <= i <= to <= text@.len(),
            s@ == old(s)@ + text@.subrange(from as int, i as int),
        decreases to - i,
    {
        crate::chars::push_char(s, text[i]);
        proof {
            assert(old(s)@ + text@.subrange(from as int, i as int + 1) =~= (old(s)@
                + text@.subrange(from as int, i as int)).push(text@[i as int]));
        }
        i += 1;
    }
    proof {
        assert(s@ =~= old(s)@ + text@.subrange(from as int, to as int));
    }
}

/// Replaces every resolved emoji span of `text` by the placeholder character
/// and collects the resolved emoji in text order. Unicode emoji always
/// resolve; `:name:` shortcodes and `<a:name:id>` external-id markers only
/// where their flag allows; a span that does not resolve stays literal, and
/// lone variation selectors are dropped.
pub fn parse_out_emojis(
    text: &str,
    parse_shortcodes: bool,
    parse_discord_emojis: bool,
    index: &EmojiIndex,
) -> (r: (String, Vec<EmojiType>))
    ensures
        r.0@ == spec_parse_out(text@, parse_shortcodes, parse_discord_emojis, index@).text,
        r.1.deep_view() == spec_parse_out(
            text@,
            parse_shortcodes,
            parse_discord_emojis,
            index@,
        ).emojis,
{
    let chars = crate::chars::str_to_chars(text);
    parse_out_emojis_chars(&chars, parse_shortcodes, parse_discord_emojis, index)
}

/// [`parse_out_emojis`] over a character vector.
pub fn parse_out_emojis_chars(
    text: &Vec<char>,
    parse_shortcodes: bool,
    parse_discord_emojis: bool,
    index: &EmojiIndex,
) -> (r: (String, Vec<EmojiType>))
    ensures
        r.0@ == spec_parse_out(text@, parse_shortcodes, parse_discord_emojis, index@).text,
        r.1.deep_view() == spec_parse_out(
            text@,
            parse_shortcodes,
            parse_discord_emojis,
            index@,
        ).emojis,
{
    let ghost idx = index@;
    let ghost whole = spec_parse_out(text@, parse_shortcodes, parse_discord_emojis, idx);
    let n = text.len();
    let mut pos: usize = 0;
    let mut out = String::new();
    let mut emojis: Vec<EmojiType> = Vec::new();
    while pos < n
        invariant
            n == text@.len(),
            pos <= n,
            idx == index@,
            whole == spec_parse_out(text@, parse_shortcodes, parse_discord_emojis, idx),
            whole.text == out@ + parse_out_from(
                text@,
                pos as int,
                parse_shortcodes,
                parse_discord_emojis,
                idx,
            ).text,
            whole.emojis == emojis.deep_view() + parse_out_from(
                text@,
                pos as int,
                parse_shortcodes,
                parse_discord_emojis,
                idx,
            ).emojis,
        decreases n - pos,
    {
        let ghost old_out = out@;
        let ghost old_ems = emojis.deep_view();
        let ghost sp = span_at(text@, pos as int, idx);
        let ghost rest = parse_out_from(
            text@,
            pos as int,
            parse_shortcodes,
            parse_discord_emojis,
            idx,
        );
        proof {
            lemma_span_at_ok(text@, pos as int, idx);
            assert(span_step(text@, pos as int, idx) == sp.raw.len() as int);
        }
        let (l, step) = scan_span(text, pos, parse_shortcodes, parse_discord_emojis, index);
        let ghost np = pos + l;
        let ghost next = parse_out_from(text@, np, parse_shortcodes, parse_discord_emojis, idx);
        match step {
            SpanStep::Emoji(e) => {
                let ghost em = e.deep_view();
                crate::chars::push_char(&mut out, PLACEHOLDER_EMOJI);
                emojis.push(e);
                proof {
                    assert(rest.text =~= seq![PLACEHOLDER_EMOJI] + next.text);
                    assert(out@ =~= old_out + seq![PLACEHOLDER_EMOJI]);
                    assert(out@ + next.text =~= old_out + rest.text);
                    assert(emojis.deep_view() =~= old_ems.push(em));
                    assert(rest.emojis =~= seq![em] + next.emojis);
                    assert(emojis.deep_view() + next.emojis =~= old_ems + rest.emojis);
                }
            },
            SpanStep::Drop => {},
            SpanStep::Ws => {
                push_chars_range(&mut out, text, pos, pos + l);
                proof {
                    assert(rest.text =~= text@.subrange(pos as int, np) + next.text);
                    assert(out@ + next.text =~= old_out + rest.text);
                }
            },
            SpanStep::Lit => {
                push_chars_range(&mut out, text, pos, pos + l);
                proof {
                    assert(rest.text =~= text@.subrange(pos as int, np) + next.text);
                    assert(out@ + next.text =~= old_out + rest.text);
                }
            },
        }
        pos += l;
    }
    (out, emojis)
}

/// Replaces every resolved emoji span by the placeholder character, with
/// both shortcode and external-id parsing enabled, and discards the emoji.
pub fn clean_emojis(text: &str, index: &EmojiIndex) -> (r: String)
    ensures
        r@ == spec_parse_out(text@, true, true, index@).text,
{
    let (parsed, _) = parse_out_emojis(text, true, true, index);
    parsed
}

// ---------------------------------------------------------------------------
// The emoji-coupling law: one placeholder per collected emoji.
// ---------------------------------------------------------------------------

/// How many times `c` occurs in `s`.
pub open spec fn count_char(s: Seq<char>, c: char) -> int
    decreases s.len(),
{
    if s.len() == 0 {
        0
    } else {
        (if s[0] == c {
            1int
        } else {
            0int
        }) + count_char(s.drop_first(), c)
    }
}

pub proof fn lemma_count_char_bounds(s: Seq<char>, c: char)
    ensures
        0 <= count_char(s, c) <= s.len(),
    decreases s.len(),
{
    if s.len() > 0 {
        lemma_count_char_bounds(s.drop_first(), c);
    }
}

pub proof fn lemma_count_char_concat(a: Seq<char>, b: Seq<char>, c: char)
    ensures
        count_char(a + b, c) == count_char(a, c) + count_char(b, c),
    decreases a.len(),
{
    if a.len() == 0 {
        assert(a + b =~= b);
    } else {
        lemma_count_char_concat(a.drop_first(), b, c);
        assert((a + b).drop_first() =~= a.drop_first() + b);
    }
}

pub proof fn lemma_count_char_zero(s: Seq<char>, c: char)
    requires
        forall|i: int| 0 <= i < s.len() ==> s[i] != c,
    ensures
        count_char(s, c) == 0,
    decreases s.len(),
{
    if s.len() > 0 {
        lemma_count_char_zero(s.drop_first(), c);
    }
}

pub proof fn lemma_count_char_single(c: char, d: char)
    ensures
        count_char(seq![c], d) == if c == d {
            1int
        } else {
            0int
        },
{
    assert(seq![c].drop_first() =~= Seq::<char>::empty());
    assert(count_char(Seq::<char>::empty(), d) == 0);
    assert(seq![c][0] == c);
}

/// Every character of a run satisfies the run's predicate.
pub proof fn lemma_run_while_chars(text: Seq<char>, pos: int, f: spec_fn(char) -> bool)
    requires
        0 <= pos,
    ensures
        forall|k: int| pos <= k < pos + run_while(text, pos, f) ==> f(#[trigger] text[k]),
    decreases text.len() - pos,
{
    if pos < text.len() && f(text[pos]) {
        lemma_run_while_chars(text, pos + 1, f);
    }
}

/// Where some entry matches at `pos`, the scanner finds a match.
pub proof fn lemma_best_entry_some(entries: Seq<Seq<char>>, text: Seq<char>, pos: int, j: int)
    requires
        0 <= j < entries.len(),
        entries[j].len() >= 1,
        is_prefix_of(entries[j], text, pos),
    ensures
        best_entry(entries, text, pos) is Some,
{
    lemma_best_entry_some_from(entries, text, pos, 0, j);
}

proof fn lemma_best_entry_some_from(
    entries: Seq<Seq<char>>,
    text: Seq<char>,
    pos: int,
    i: int,
    j: int,
)
    requires
        0 <= i <= j < entries.len(),
        entries[j].len() >= 1,
        is_prefix_of(entries[j], text, pos),
    ensures
        best_entry_from(entries, text, pos, i) is Some,
    decreases j - i,
{
    if i < j {
        lemma_best_entry_some_from(entries, text, pos, i + 1, j);
    }
}

/// No character of a span that stays literal is the placeholder, provided
/// the placeholder itself stands in the emoji table.
proof fn lemma_literal_span_no_placeholder(text: Seq<char>, pos: int, idx: EmojiIndexView)
    requires
        0 <= pos < text.len(),
        idx.entries.contains(seq![PLACEHOLDER_EMOJI]),
        !(span_at(text, pos, idx).kind is Emo),
    ensures
        forall|k: int|
            pos <= k < pos + span_at(text, pos, idx).raw.len() ==> #[trigger] text[k]
                != PLACEHOLDER_EMOJI,
{
    lemma_span_at_ok(text, pos, idx);
    let sp = span_at(text, pos, idx);
    let e = best_entry(idx.entries, text, pos);
    assert(e is None);
    assert forall|k: int| pos <= k < pos + sp.raw.len() implies #[trigger] text[k]
        != PLACEHOLDER_EMOJI by {
        if text[k] == PLACEHOLDER_EMOJI {
            // The single-character placeholder entry would match at k; at
            // pos itself that contradicts the scanner having found nothing,
            // and inside a shortcode or external-id span every character is
            // ASCII punctuation, a name character or a digit.
            let pj = choose|pj: int|
                0 <= pj < idx.entries.len() && idx.entries[pj] == seq![PLACEHOLDER_EMOJI];
            if k == pos {
                assert(text.subrange(pos, pos + 1) =~= seq![PLACEHOLDER_EMOJI]);
                assert(is_prefix_of(seq![PLACEHOLDER_EMOJI], text, pos));
                lemma_best_entry_some(idx.entries, text, pos, pj);
                assert(false);
            } else {
                match shortcode_span_len(text, pos) {
                    Some(l) => {
                        let r = run_while(text, pos + 1, sc_char_fn());
                        lemma_run_while_chars(text, pos + 1, sc_char_fn());
                        assert(k == pos + 1 + r || (pos + 1 <= k < pos + 1 + r));
                        assert(!is_shortcode_char(PLACEHOLDER_EMOJI));
                        assert(false);
                    },
                    None => {
                        match ext_span_shape(text, pos) {
                            Some(esh) => {
                                let base = if pos + 2 < text.len() && text[pos + 1] == 'a'
                                    && text[pos + 2] == ':' {
                                    pos + 3
                                } else {
                                    pos + 2
                                };
                                let nr = run_while(text, base, name_char_fn());
                                lemma_run_while_chars(text, base, name_char_fn());
                                lemma_run_while_chars(text, base + nr + 1, digit_char_fn());
                                assert(!is_name_char(PLACEHOLDER_EMOJI));
                                assert(!is_digit_char(PLACEHOLDER_EMOJI));
                                assert(false);
                            },
                            None => {
                                // A single-character span: only k == pos is
                                // in range, handled above.
                                assert(sp.raw.len() == 1);
                                assert(false);
                            },
                        }
                    },
                }
            }
        }
    }
}

/// The emoji-coupling law, parser side: the parsed text holds exactly one
/// placeholder character per collected emoji, whatever the flags, provided
/// the placeholder itself stands in the emoji table (it is an emoji). The
/// table [`crate::registry::build_regex`] builds guarantees that premise in
/// its contract.
pub proof fn lemma_emoji_coupling(
    text: Seq<char>,
    allow_shortcodes: bool,
    allow_external: bool,
    idx: EmojiIndexView,
)
    requires
        idx.entries.contains(seq![PLACEHOLDER_EMOJI]),
    ensures
        count_char(
            spec_parse_out(text, allow_shortcodes, allow_external, idx).text,
            PLACEHOLDER_EMOJI,
        ) == spec_parse_out(text, allow_shortcodes, allow_external, idx).emojis.len(),
{
    lemma_emoji_coupling_from(text, 0, allow_shortcodes, allow_external, idx);
}

proof fn lemma_emoji_coupling_from(
    text: Seq<char>,
    pos: int,
    allow_shortcodes: bool,
    allow_external: bool,
    idx: EmojiIndexView,
)
    requires
        0 <= pos,
        idx.entries.contains(seq![PLACEHOLDER_EMOJI]),
    ensures
        count_char(
            parse_out_from(text, pos, allow_shortcodes, allow_external, idx).text,
            PLACEHOLDER_EMOJI,
        ) == parse_out_from(text, pos, allow_shortcodes, allow_external, idx).emojis.len(),
    decreases text.len() - pos,
{
    if pos >= text.len() {
    } else {
        lemma_span_at_ok(text, pos, idx);
        let sp = span_at(text, pos, idx);
        let np = pos + span_step(text, pos, idx);
        lemma_emoji_coupling_from(text, np, allow_shortcodes, allow_external, idx);
        let rest = parse_out_from(text, np, allow_shortcodes, allow_external, idx);
        match classify_span(sp, allow_shortcodes, allow_external, idx) {
            SpanClass::CEmoji(e) => {
                lemma_count_char_concat(seq![PLACEHOLDER_EMOJI], rest.text, PLACEHOLDER_EMOJI);
                lemma_count_char_single(PLACEHOLDER_EMOJI, PLACEHOLDER_EMOJI);
            },
            SpanClass::CDrop => {},
            SpanClass::CWs => {
                lemma_count_char_concat(text.subrange(pos, np), rest.text, PLACEHOLDER_EMOJI);
                lemma_literal_span_no_placeholder(text, pos, idx);
                assert forall|i: int|
                    0 <= i < text.subrange(pos, np).len() implies text.subrange(pos, np)[i]
                    != PLACEHOLDER_EMOJI by {
                    assert(text.subrange(pos, np)[i] == text[pos + i]);
                }
                lemma_count_char_zero(text.subrange(pos, np), PLACEHOLDER_EMOJI);
            },
            SpanClass::CLit => {
                lemma_count_char_concat(text.subrange(pos, np), rest.text, PLACEHOLDER_EMOJI);
                lemma_literal_span_no_placeholder(text, pos, idx);
                assert forall|i: int|
                    0 <= i < text.subrange(pos, np).len() implies text.subrange(pos, np)[i]
                    != PLACEHOLDER_EMOJI by {
                    assert(text.subrange(pos, np)[i] == text[pos + i]);
                }
                lemma_count_char_zero(text.subrange(pos, np), PLACEHOLDER_EMOJI);
            },
        }
    }
}


/// The tokenizer and the emoji scanner agree: a text produces exactly as
/// many Emoji tokens as the scanner collects emoji for it, under the same
/// flags. Together with [`lemma_emoji_coupling`] and the emoji-consumption
/// count of a layout pass over the parsed text, the Emoji tokens of a text
/// equal the substitutions a layout pass consumes.
pub proof fn lemma_tokens_scan_agree(
    text: Seq<char>,
    allow_shortcodes: bool,
    allow_external: bool,
    idx: EmojiIndexView,
)
    ensures
        count_emoji_tokens(spec_tokenize(text, allow_shortcodes, allow_external, idx))
            == spec_parse_out(text, allow_shortcodes, allow_external, idx).emojis.len(),
{
    lemma_tokens_scan_agree_from(text, 0, allow_shortcodes, allow_external, idx, Seq::empty());
}

proof fn lemma_count_emoji_flush(buf: Seq<char>)
    ensures
        count_emoji_tokens(flush_word(buf)) == 0,
{
    assert(count_emoji_tokens(Seq::<TokenModel>::empty()) == 0);
    if buf.len() > 0 {
        assert(flush_word(buf).drop_first() =~= Seq::<TokenModel>::empty());
        assert(count_emoji_tokens(flush_word(buf)) == 0);
    }
}

proof fn lemma_tokens_scan_agree_from(
    text: Seq<char>,
    pos: int,
    allow_shortcodes: bool,
    allow_external: bool,
    idx: EmojiIndexView,
    buf: Seq<char>,
)
    requires
        0 <= pos,
    ensures
        count_emoji_tokens(tokens_from(text, pos, allow_shortcodes, allow_external, idx, buf))
            == parse_out_from(text, pos, allow_shortcodes, allow_external, idx).emojis.len(),
    decreases text.len() - pos,
{
    if pos >= text.len() {
        lemma_count_emoji_flush(buf);
    } else {
        lemma_span_at_ok(text, pos, idx);
        let sp = span_at(text, pos, idx);
        let np = pos + span_step(text, pos, idx);
        match classify_span(sp, allow_shortcodes, allow_external, idx) {
            SpanClass::CLit => {
                lemma_tokens_scan_agree_from(
                    text,
                    np,
                    allow_shortcodes,
                    allow_external,
                    idx,
                    buf + text.subrange(pos, np),
                );
            },
            SpanClass::CDrop => {
                lemma_tokens_scan_agree_from(text, np, allow_shortcodes, allow_external, idx, buf);
            },
            SpanClass::CWs => {
                lemma_tokens_scan_agree_from(
                    text,
                    np,
                    allow_shortcodes,
                    allow_external,
                    idx,
                    Seq::empty(),
                );
                lemma_count_emoji_tokens_concat(
                    flush_word(buf) + seq![TokenModel::WhiteSpace],
                    tokens_from(text, np, allow_shortcodes, allow_external, idx, Seq::empty()),
                );
                lemma_count_emoji_tokens_concat(flush_word(buf), seq![TokenModel::WhiteSpace]);
                lemma_count_emoji_flush(buf);
                assert(count_emoji_tokens(seq![TokenModel::WhiteSpace]) == 0) by {
                    assert(count_emoji_tokens(Seq::<TokenModel>::empty()) == 0);
                    assert(seq![TokenModel::WhiteSpace].drop_first()
                        =~= Seq::<TokenModel>::empty());
                }
            },
            SpanClass::CEmoji(e) => {
                lemma_tokens_scan_agree_from(
                    text,
                    np,
                    allow_shortcodes,
                    allow_external,
                    idx,
                    Seq::empty(),
                );
                lemma_count_emoji_tokens_concat(
                    flush_word(buf) + seq![TokenModel::Emoji(e)],
                    tokens_from(text, np, allow_shortcodes, allow_external, idx, Seq::empty()),
                );
                lemma_count_emoji_tokens_concat(flush_word(buf), seq![TokenModel::Emoji(e)]);
                lemma_count_emoji_flush(buf);
                assert(count_emoji_tokens(seq![TokenModel::Emoji(e)]) == 1) by {
                    assert(count_emoji_tokens(Seq::<TokenModel>::empty()) == 0);
                    assert(seq![TokenModel::Emoji(e)].drop_first() =~= Seq::<TokenModel>::empty());
                }
            },
        }
    }
}


/// Parsing never lengthens a text: every span leaves at most as many
/// characters as it consumed.
pub proof fn lemma_parse_out_text_len(
    text: Seq<char>,
    pos: int,
    allow_shortcodes: bool,
    allow_external: bool,
    idx: EmojiIndexView,
)
    requires
        0 <= pos,
    ensures
        parse_out_from(text, pos, allow_shortcodes, allow_external, idx).text.len() <= if pos
            <= text.len() {
            text.len() - pos
        } else {
            0
        },
    decreases text.len() - pos,
{
    if pos < text.len() {
        lemma_span_at_ok(text, pos, idx);
        let np = pos + span_step(text, pos, idx);
        lemma_parse_out_text_len(text, np, allow_shortcodes, allow_external, idx);
    }
}


// ---------------------------------------------------------------------------
// The scanner round trip: placeholders substitute back in order.
// ---------------------------------------------------------------------------

/// `parsed` with its k-th placeholder character replaced by the text of the
/// k-th emoji, left to right; placeholders past the end of the list stay.
pub open spec fn subst_placeholders(parsed: Seq<char>, ems: Seq<EmojiTypeModel>) -> Seq<char>
    decreases parsed.len(),
{
    if parsed.len() == 0 {
        Seq::empty()
    } else if parsed[0] == PLACEHOLDER_EMOJI {
        if ems.len() > 0 {
            emoji_text(ems[0]) + subst_placeholders(parsed.drop_first(), ems.drop_first())
        } else {
            seq![PLACEHOLDER_EMOJI] + subst_placeholders(parsed.drop_first(), ems)
        }
    } else {
        seq![parsed[0]] + subst_placeholders(parsed.drop_first(), ems)
    }
}

/// Substitution walks placeholder-free text unchanged.
proof fn lemma_subst_skip_literals(a: Seq<char>, b: Seq<char>, ems: Seq<EmojiTypeModel>)
    requires
        forall|i: int| 0 <= i < a.len() ==> a[i] != PLACEHOLDER_EMOJI,
    ensures
        subst_placeholders(a + b, ems) == a + subst_placeholders(b, ems),
    decreases a.len(),
{
    if a.len() == 0 {
        assert(a + b =~= b);
        assert(a + subst_placeholders(b, ems) =~= subst_placeholders(b, ems));
    } else {
        assert((a + b)[0] == a[0]);
        assert((a + b).drop_first() =~= a.drop_first() + b);
        lemma_subst_skip_literals(a.drop_first(), b, ems);
        assert(seq![a[0]] + (a.drop_first() + subst_placeholders(b, ems)) =~= a
            + subst_placeholders(b, ems));
    }
}

/// The scanner round trip: with shortcode and external-id parsing off and no
/// variation selector in the text, substituting the k-th collected emoji for
/// the k-th placeholder, in order, reproduces the text exactly. Every
/// character outside a placeholder is a character of the input, in input
/// order, so nothing is lost or reordered. (A variation selector is dropped
/// from the parsed text, and a resolved shortcode normalizes to its
/// canonical form, so those inputs are excluded.) The table
/// [`crate::registry::build_regex`] builds guarantees the placeholder
/// premise.
pub proof fn lemma_parse_out_round_trip(text: Seq<char>, idx: EmojiIndexView)
    requires
        idx.entries.contains(seq![PLACEHOLDER_EMOJI]),
        forall|i: int| 0 <= i < text.len() ==> text[i] != VARIATION_SELECTOR,
    ensures
        subst_placeholders(
            spec_parse_out(text, false, false, idx).text,
            spec_parse_out(text, false, false, idx).emojis,
        ) == text,
{
    lemma_parse_out_round_trip_from(text, 0, idx);
    assert(text.skip(0) =~= text);
}

proof fn lemma_parse_out_round_trip_from(text: Seq<char>, pos: int, idx: EmojiIndexView)
    requires
        0 <= pos <= text.len(),
        idx.entries.contains(seq![PLACEHOLDER_EMOJI]),
        forall|i: int| pos <= i < text.len() ==> text[i] != VARIATION_SELECTOR,
    ensures
        subst_placeholders(
            parse_out_from(text, pos, false, false, idx).text,
            parse_out_from(text, pos, false, false, idx).emojis,
        ) == text.skip(pos),
    decreases text.len() - pos,
{
    if pos >= text.len() {
        assert(text.skip(pos) =~= Seq::<char>::empty());
    } else {
        lemma_span_at_ok(text, pos, idx);
        let sp = span_at(text, pos, idx);
        let np = pos + span_step(text, pos, idx);
        lemma_parse_out_round_trip_from(text, np, idx);
        let rest = parse_out_from(text, np, false, false, idx);
        match classify_span(sp, false, false, idx) {
            SpanClass::CEmoji(e) => {
                // With both flags off only a canonical emoji span resolves,
                // and its raw text is its canonical form.
                assert(e == EmojiTypeModel::Regular(sp.raw));
                let cur = parse_out_from(text, pos, false, false, idx);
                assert(cur.text[0] == PLACEHOLDER_EMOJI);
                assert(cur.text.drop_first() =~= rest.text);
                assert(cur.emojis[0] == e);
                assert(cur.emojis.drop_first() =~= rest.emojis);
                assert(emoji_text(e) == sp.raw);
                assert(sp.raw + text.skip(np) =~= text.skip(pos));
            },
            SpanClass::CDrop => {
                // A drop is a lone variation selector, which the text does
                // not hold.
                assert(sp.raw[0] == text[pos]);
                assert(false);
            },
            SpanClass::CWs => {
                lemma_literal_span_no_placeholder(text, pos, idx);
                assert forall|i: int|
                    0 <= i < text.subrange(pos, np).len() implies text.subrange(pos, np)[i]
                    != PLACEHOLDER_EMOJI by {
                    assert(text.subrange(pos, np)[i] == text[pos + i]);
                }
                lemma_subst_skip_literals(text.subrange(pos, np), rest.text, rest.emojis);
                assert(text.subrange(pos, np) + text.skip(np) =~= text.skip(pos));
            },
            SpanClass::CLit => {
                lemma_literal_span_no_placeholder(text, pos, idx);
                assert forall|i: int|
                    0 <= i < text.subrange(pos, np).len() implies text.subrange(pos, np)[i]
                    != PLACEHOLDER_EMOJI by {
                    assert(text.subrange(pos, np)[i] == text[pos + i]);
                }
                lemma_subst_skip_literals(text.subrange(pos, np), rest.text, rest.emojis);
                assert(text.subrange(pos, np) + text.skip(np) =~= text.skip(pos));
            },
        }
    }
}

} // verus!
