//! The line breaker: greedy word wrap, with fallback to splitting a line
//! into grapheme clusters when a single word overflows the width budget.
//! Each candidate line is re-measured against the shaped glyph widths of the
//! font set, never against character counts.

use vstd::prelude::*;

use crate::chars::{is_ws_char, is_whitespace_char};
use crate::metrics::{Scale, SuperFont, MAX_TEXT_LEN};
use crate::measure::{spec_unit_text_width, text_width};
use crate::token::{run_while, lemma_run_while_bound};

verus! {

/// The two wrapping disciplines: whole words only, or words with a fallback
/// to grapheme-level splitting for lines a single word overflows.
#[derive(Debug, Clone, Copy)]
pub enum WrapStyle {
    Word,
    Character,
}

/// The measured width of a candidate line under the font set.
pub open spec fn w_of(f: &SuperFont, scale: Scale, emoji_aware: bool, s: Seq<char>) -> int {
    scale.x * spec_unit_text_width(f, s, emoji_aware)
}

pub open spec fn non_ws_fn() -> spec_fn(char) -> bool {
    |c: char| !is_ws_char(c)
}

/// The whitespace-delimited words of `text` from `i` on: maximal runs of
/// non-whitespace characters.
pub open spec fn split_ws_from(text: Seq<char>, i: int) -> Seq<Seq<char>>
    decreases text.len() - i,
{
    if i < 0 || i >= text.len() {
        Seq::empty()
    } else if is_ws_char(text[i]) {
        split_ws_from(text, i + 1)
    } else {
        let r = spec_run_guard(text, i);
        seq![text.subrange(i, i + r)] + split_ws_from(text, i + r)
    }
}

/// The length of the non-whitespace run at `i`, at least one so the
/// recursion above visibly advances; it equals the run's real length.
pub open spec fn spec_run_guard(text: Seq<char>, i: int) -> int {
    let r = run_while(text, i, non_ws_fn());
    if 1 <= r && i + r <= text.len() {
        r
    } else {
        1
    }
}

pub open spec fn split_ws(text: Seq<char>) -> Seq<Seq<char>> {
    split_ws_from(text, 0)
}

/// A word is clean: non-empty and free of whitespace.
pub open spec fn clean_word(w: Seq<char>) -> bool {
    w.len() >= 1 && forall|k: int| 0 <= k < w.len() ==> !is_ws_char(#[trigger] w[k])
}

/// The word budget from `j` on: one separator and the word itself, for each
/// word. Candidate lines never grow past it.
pub open spec fn words_budget(ws: Seq<Seq<char>>, j: int) -> int
    decreases ws.len() - j,
{
    if j < 0 || j >= ws.len() {
        0
    } else {
        1 + ws[j].len() + words_budget(ws, j + 1)
    }
}

pub proof fn lemma_words_budget_nonneg(ws: Seq<Seq<char>>, j: int)
    ensures
        words_budget(ws, j) >= 0,
    decreases ws.len() - j,
{
    if 0 <= j < ws.len() {
        lemma_words_budget_nonneg(ws, j + 1);
    }
}

/// A maximal run stops only at the end of the text or at a character that
/// fails the predicate.
pub proof fn lemma_run_while_stops(text: Seq<char>, i: int, f: spec_fn(char) -> bool)
    requires
        0 <= i <= text.len(),
    ensures
        i + run_while(text, i, f) < text.len() ==> !f(text[i + run_while(text, i, f)]),
    decreases text.len() - i,
{
    if i < text.len() && f(text[i]) {
        lemma_run_while_stops(text, i + 1, f);
    }
}

/// Every character of a run of non-whitespace is non-whitespace.
pub proof fn lemma_run_non_ws_chars(text: Seq<char>, i: int)
    requires
        0 <= i,
    ensures
        forall|k: int|
            i <= k < i + run_while(text, i, non_ws_fn()) ==> !is_ws_char(#[trigger] text[k]),
    decreases text.len() - i,
{
    if i < text.len() && non_ws_fn()(text[i]) {
        lemma_run_non_ws_chars(text, i + 1);
    }
}

/// The words of a split are clean, and their budget is bounded by the text
/// left to split.
pub proof fn lemma_split_ws_ok(text: Seq<char>, i: int)
    requires
        0 <= i <= text.len(),
    ensures
        ({
            let ws = split_ws_from(text, i);
            &&& words_budget(ws, 0) <= text.len() - i + 1
            &&& forall|k: int| 0 <= k < ws.len() ==> clean_word(#[trigger] ws[k])
        }),
    decreases text.len() - i,
{
    if i < text.len() {
        if is_ws_char(text[i]) {
            lemma_split_ws_ok(text, i + 1);
        } else {
            let r = run_while(text, i, non_ws_fn());
            lemma_run_while_bound(text, i, non_ws_fn());
            lemma_run_non_ws_chars(text, i);
            lemma_run_while_stops(text, i, non_ws_fn());
            assert(non_ws_fn()(text[i]));
            assert(r == 1 + run_while(text, i + 1, non_ws_fn()));
            lemma_run_while_bound(text, i + 1, non_ws_fn());
            assert(r >= 1);
            assert(spec_run_guard(text, i) == r);
            let w = text.subrange(i, i + r);
            assert(clean_word(w)) by {
                assert(forall|k: int| 0 <= k < w.len() ==> w[k] == text[i + k]);
            }
            let rest = split_ws_from(text, i + r);
            let ws = split_ws_from(text, i);
            assert(ws == seq![w] + rest);
            assert(ws[0] == w);
            assert(forall|k: int| 1 <= k < ws.len() ==> ws[k] == rest[k - 1]);
            // The budget of the cons is one more word than the rest's.
            lemma_words_budget_cons(w, rest);
            if i + r < text.len() {
                // The run is maximal, so the next character is whitespace
                // and the rest starts one character later.
                assert(!non_ws_fn()(text[i + r]));
                assert(is_ws_char(text[i + r]));
                lemma_split_ws_ok(text, i + r + 1);
                assert(split_ws_from(text, i + r) == split_ws_from(text, i + r + 1));
            } else {
                lemma_split_ws_ok(text, i + r);
            }
        }
    }
}

/// The budget of a word consed onto a split.
pub proof fn lemma_words_budget_cons(w: Seq<char>, rest: Seq<Seq<char>>)
    ensures
        words_budget(seq![w] + rest, 0) == 1 + w.len() + words_budget(rest, 0),
    decreases rest.len(),
{
    let ws = seq![w] + rest;
    assert(ws[0] == w);
    lemma_words_budget_shift(ws, rest, 1);
}

/// The budget of a suffix of a cons equals the budget of the tail.
proof fn lemma_words_budget_shift(ws: Seq<Seq<char>>, rest: Seq<Seq<char>>, j: int)
    requires
        1 <= j <= ws.len(),
        ws.len() == rest.len() + 1,
        forall|k: int| 1 <= k < ws.len() ==> ws[k] == rest[k - 1],
    ensures
        words_budget(ws, j) == words_budget(rest, j - 1),
    decreases ws.len() - j,
{
    if j < ws.len() {
        lemma_words_budget_shift(ws, rest, j + 1);
    }
}

/// Splits `text` into its whitespace-delimited words.
pub fn split_whitespace_chars(text: &Vec<char>) -> (r: Vec<String>)
    ensures
        r.deep_view() == split_ws(text@),
{
    let ghost whole = split_ws(text@);
    let n = text.len();
    let mut out: Vec<String> = Vec::new();
    let mut i: usize = 0;
    proof {
        assert(Seq::<Seq<char>>::empty() + split_ws_from(text@, 0) =~= split_ws_from(text@, 0));
    }
    while i < n
        invariant
            n == text@.len(),
            i <= n,
            whole == split_ws(text@),
            whole =~= out.deep_view() + split_ws_from(text@, i as int),
        decreases n - i,
    {
        if is_whitespace_char(text[i]) {
            i += 1;
        } else {
            let r = run_non_ws(text, i);
            proof {
                assert(spec_run_guard(text@, i as int) == r);
            }
            let w = crate::chars::chars_range_string(text, i, i + r);
            let ghost pre = out.deep_view();
            out.push(w);
            proof {
                assert(out.deep_view() =~= pre.push(text@.subrange(i as int, i as int + r)));
                assert(out.deep_view() + split_ws_from(text@, i as int + r) =~= pre + (seq![
                    text@.subrange(i as int, i as int + r),
                ] + split_ws_from(text@, i as int + r)));
            }
            i += r;
        }
    }
    proof {
        assert(split_ws_from(text@, n as int) =~= Seq::<Seq<char>>::empty());
        assert(out.deep_view() =~= whole);
    }
    out
}

/// The length of the run of non-whitespace characters starting at `pos`.
fn run_non_ws(text: &Vec<char>, pos: usize) -> (r: usize)
    requires
        pos < text@.len(),
        !is_ws_char(text@[pos as int]),
    ensures
        r == run_while(text@, pos as int, non_ws_fn()),
        1 <= r,
        pos + r <= text@.len(),
{
    let mut i: usize = pos;
    while i < text.len() && !is_whitespace_char(text[i])
        invariant
            pos <= i <= text@.len(),
            run_while(text@, pos as int, non_ws_fn()) == i - pos + run_while(
                text@,
                i as int,
                non_ws_fn(),
            ),
        decreases text@.len() - i,
    {
        i += 1;
    }
    proof {
        assert(run_while(text@, i as int, non_ws_fn()) == 0);
    }
    i - pos
}

// ---------------------------------------------------------------------------
// The greedy fit.
// ---------------------------------------------------------------------------

/// `s` with leading whitespace dropped.
pub open spec fn trim_front(s: Seq<char>) -> Seq<char>
    decreases s.len(),
{
    if s.len() > 0 && is_ws_char(s[0]) {
        trim_front(s.drop_first())
    } else {
        s
    }
}

/// `s` with trailing whitespace dropped.
pub open spec fn trim_back(s: Seq<char>) -> Seq<char>
    decreases s.len(),
{
    if s.len() > 0 && is_ws_char(s.last()) {
        trim_back(s.drop_last())
    } else {
        s
    }
}

/// `s` with leading and trailing whitespace dropped.
pub open spec fn trim_ws(s: Seq<char>) -> Seq<char> {
    trim_back(trim_front(s))
}

/// A clean line trims to itself.
pub proof fn lemma_trim_clean(s: Seq<char>)
    requires
        s.len() == 0 || (!is_ws_char(s[0]) && !is_ws_char(s.last())),
    ensures
        trim_ws(s) == s,
{
}

/// The greedy fit from word `j` on, with `line` the candidate under
/// construction. Each next word extends the candidate (after a single space
/// separator, unless `no_sep` or the candidate is empty); an extension that
/// measures over `maxw` emits the candidate and starts over from the word.
/// At the end the candidate is emitted trimmed, if anything is left of it.
pub open spec fn break_rec(
    f: &SuperFont,
    scale: Scale,
    emoji_aware: bool,
    ws: Seq<Seq<char>>,
    j: int,
    line: Seq<char>,
    maxw: int,
    no_sep: bool,
) -> Seq<Seq<char>>
    decreases ws.len() - j,
{
    if j < 0 || j >= ws.len() {
        let t = trim_ws(line);
        if t.len() > 0 {
            seq![t]
        } else {
            Seq::empty()
        }
    } else {
        let cand = if !no_sep && line.len() > 0 {
            line + seq![' '] + ws[j]
        } else {
            line + ws[j]
        };
        if w_of(f, scale, emoji_aware, cand) > maxw {
            if line.len() > 0 {
                seq![line] + break_rec(f, scale, emoji_aware, ws, j + 1, ws[j], maxw, no_sep)
            } else {
                break_rec(f, scale, emoji_aware, ws, j + 1, ws[j], maxw, no_sep)
            }
        } else {
            break_rec(f, scale, emoji_aware, ws, j + 1, cand, maxw, no_sep)
        }
    }
}

/// The word-wrapped lines of `text`.
pub open spec fn spec_text_wrap_word(
    f: &SuperFont,
    scale: Scale,
    emoji_aware: bool,
    text: Seq<char>,
    maxw: int,
) -> Seq<Seq<char>> {
    break_rec(f, scale, emoji_aware, split_ws(text), 0, Seq::empty(), maxw, false)
}

/// Runs the greedy fit over `words`. The budget accounting keeps every
/// candidate inside the measurable text length.
fn break_lines(
    font: &SuperFont,
    scale: Scale,
    emoji_aware: bool,
    words: &Vec<String>,
    maxw: i64,
    no_sep: bool,
    start: String,
) -> (r: Vec<String>)
    requires
        font.wf(),
        scale.wf(),
        start@.len() + words_budget(words.deep_view(), 0) <= MAX_TEXT_LEN as int,
    ensures
        r.deep_view() == break_rec(font, scale, emoji_aware, words.deep_view(), 0, start@, maxw as int, no_sep),
        forall|k: int|
            0 <= k < r.deep_view().len() ==> (#[trigger] r.deep_view()[k]).len() <= start@.len()
                + words_budget(words.deep_view(), 0),
        forall|k: int| 0 <= k < r.deep_view().len() ==> (#[trigger] r.deep_view()[k]).len() >= 1,
        lines_len_sum(r.deep_view()) <= start@.len() + words_budget(words.deep_view(), 0),
{
    let ghost ws = words.deep_view();
    let ghost cap = start@.len() + words_budget(ws, 0);
    let ghost whole = break_rec(font, scale, emoji_aware, ws, 0, start@, maxw as int, no_sep);
    let n = words.len();
    let mut out: Vec<String> = Vec::new();
    let mut line: String = start;
    let mut j: usize = 0;
    proof {
        lemma_words_budget_nonneg(ws, 0);
        assert(Seq::<Seq<char>>::empty() + whole =~= whole);
    }
    while j < n
        invariant
            font.wf(),
            scale.wf(),
            n == words@.len(),
            ws == words.deep_view(),
            ws.len() == n,
            j <= n,
            cap <= MAX_TEXT_LEN as int,
            line@.len() + words_budget(ws, j as int) <= cap,
            whole =~= out.deep_view() + break_rec(font, scale, emoji_aware,
                ws,
                j as int,
                line@,
                maxw as int,
                no_sep,
            ),
            forall|k: int|
                0 <= k < out.deep_view().len() ==> (#[trigger] out.deep_view()[k]).len() <= cap,
            forall|k: int|
                0 <= k < out.deep_view().len() ==> (#[trigger] out.deep_view()[k]).len() >= 1,
            lines_len_sum(out.deep_view()) + line@.len() + words_budget(ws, j as int) <= cap,
        decreases n - j,
    {
        proof {
            lemma_words_budget_nonneg(ws, j as int + 1);
            assert(words_budget(ws, j as int) == 1 + ws[j as int].len() + words_budget(
                ws,
                j as int + 1,
            ));
        }
        let word = &words[j];
        let mut cand = line.clone();
        if !no_sep && !cand.as_str().is_empty() {
            crate::chars::push_char(&mut cand, ' ');
        }
        cand.append(word.as_str());
        let ghost cand_seq = if !no_sep && line@.len() > 0 {
            line@ + seq![' '] + ws[j as int]
        } else {
            line@ + ws[j as int]
        };
        proof {
            if !no_sep && line@.len() > 0 {
                assert(cand@ =~= cand_seq);
            } else {
                assert(cand@ =~= cand_seq);
            }
        }
        let w = if emoji_aware {
            crate::measure::parsed_text_width_with_emojis(scale, font, cand.as_str())
        } else {
            text_width(scale, font, cand.as_str())
        };
        let ghost pre_out = out.deep_view();
        let ghost pre_line = line@;
        if w > maxw {
            if !line.as_str().is_empty() {
                out.push(line);
                proof {
                    assert(out.deep_view() =~= pre_out.push(pre_line));
                    lemma_lines_len_sum_push(pre_out, pre_line);
                }
                line = word.clone();
            } else {
                line = word.clone();
            }
        } else {
            line = cand;
        }
        proof {
            if w_of(font, scale, emoji_aware, cand_seq) > maxw as int {
                if pre_line.len() > 0 {
                    assert(break_rec(font, scale, emoji_aware, ws, j as int, pre_line, maxw as int, no_sep)
                        =~= seq![pre_line] + break_rec(font, scale, emoji_aware,
                        ws,
                        j as int + 1,
                        ws[j as int],
                        maxw as int,
                        no_sep,
                    ));
                    assert(out.deep_view() =~= pre_out + seq![pre_line]);
                    assert(out.deep_view() + break_rec(font, scale, emoji_aware,
                        ws,
                        j as int + 1,
                        line@,
                        maxw as int,
                        no_sep,
                    ) =~= pre_out + (seq![pre_line] + break_rec(font, scale, emoji_aware,
                        ws,
                        j as int + 1,
                        ws[j as int],
                        maxw as int,
                        no_sep,
                    )));
                }
            }
        }
        j += 1;
    }
    proof {
        assert(words_budget(ws, n as int) == 0);
    }
    let ghost pre_out = out.deep_view();
    let ghost pre_line = line@;
    let trimmed = trim_string(&line);
    if !trimmed.as_str().is_empty() {
        out.push(trimmed);
        proof {
            assert(out.deep_view() =~= pre_out.push(trim_ws(pre_line)));
            assert(out.deep_view() =~= pre_out + seq![trim_ws(pre_line)]);
            lemma_trim_len(pre_line);
            lemma_lines_len_sum_push(pre_out, trim_ws(pre_line));
        }
    } else {
        proof {
            assert(out.deep_view() =~= pre_out + break_rec(font, scale, emoji_aware,
                ws,
                n as int,
                pre_line,
                maxw as int,
                no_sep,
            ));
        }
    }
    out
}

/// Trimming never lengthens a line.
pub proof fn lemma_trim_len(s: Seq<char>)
    ensures
        trim_ws(s).len() <= s.len(),
{
    lemma_trim_front_len(s);
    lemma_trim_back_len(trim_front(s));
}

proof fn lemma_trim_front_len(s: Seq<char>)
    ensures
        trim_front(s).len() <= s.len(),
    decreases s.len(),
{
    if s.len() > 0 && is_ws_char(s[0]) {
        lemma_trim_front_len(s.drop_first());
    }
}

proof fn lemma_trim_back_len(s: Seq<char>)
    ensures
        trim_back(s).len() <= s.len(),
    decreases s.len(),
{
    if s.len() > 0 && is_ws_char(s.last()) {
        lemma_trim_back_len(s.drop_last());
    }
}

/// A string with the line's leading and trailing whitespace dropped.
fn trim_string(line: &String) -> (r: String)
    ensures
        r@ == trim_ws(line@),
{
    let chars = crate::chars::str_to_chars(line.as_str());
    let n = chars.len();
    let mut a: usize = 0;
    proof {
        assert(chars@.skip(0) =~= chars@);
    }
    while a < n && is_whitespace_char(chars[a])
        invariant
            n == chars@.len(),
            a <= n,
            trim_front(line@) == trim_front(chars@.skip(a as int)),
        decreases n - a,
    {
        proof {
            assert(chars@.skip(a as int)[0] == chars@[a as int]);
            assert(chars@.skip(a as int).drop_first() =~= chars@.skip(a as int + 1));
        }
        a += 1;
    }
    proof {
        if a < n {
            assert(chars@.skip(a as int)[0] == chars@[a as int]);
        }
        assert(trim_front(chars@.skip(a as int)) == chars@.skip(a as int));
    }
    let mut b: usize = n;
    proof {
        assert(chars@.subrange(a as int, n as int) =~= chars@.skip(a as int));
    }
    while b > a && is_whitespace_char(chars[b - 1])
        invariant
            a <= b <= n,
            n == chars@.len(),
            trim_front(line@) == chars@.skip(a as int),
            trim_back(chars@.skip(a as int)) == trim_back(chars@.subrange(a as int, b as int)),
        decreases b,
    {
        proof {
            let cur = chars@.subrange(a as int, b as int);
            assert(cur.last() == chars@[b - 1]);
            assert(cur.drop_last() =~= chars@.subrange(a as int, b as int - 1));
        }
        b -= 1;
    }
    proof {
        let cur = chars@.subrange(a as int, b as int);
        if b > a {
            assert(cur.last() == chars@[b - 1]);
        }
        assert(trim_back(cur) == cur);
        assert(chars@.skip(a as int) =~= chars@.subrange(a as int, n as int));
    }
    crate::chars::chars_range_string(&chars, a, b)
}


/// The total character count of a line list.
pub open spec fn lines_len_sum(ls: Seq<Seq<char>>) -> int
    decreases ls.len(),
{
    if ls.len() == 0 {
        0
    } else {
        lines_len_sum(ls.drop_last()) + ls.last().len()
    }
}

pub proof fn lemma_lines_len_sum_push(ls: Seq<Seq<char>>, l: Seq<char>)
    ensures
        lines_len_sum(ls.push(l)) == lines_len_sum(ls) + l.len(),
{
    assert(ls.push(l).drop_last() =~= ls);
    assert(ls.push(l).last() == l);
}

pub proof fn lemma_lines_len_sum_nonneg(ls: Seq<Seq<char>>)
    ensures
        lines_len_sum(ls) >= 0,
    decreases ls.len(),
{
    if ls.len() > 0 {
        lemma_lines_len_sum_nonneg(ls.drop_last());
    }
}

/// With every line non-empty, the word budget of a line list is at most
/// twice its character count.
pub proof fn lemma_budget_le_twice_sum(ls: Seq<Seq<char>>, j: int)
    requires
        0 <= j <= ls.len(),
        forall|k: int| 0 <= k < ls.len() ==> (#[trigger] ls[k]).len() >= 1,
    ensures
        words_budget(ls, j) <= 2 * (lines_len_sum(ls) - lines_len_sum(ls.take(j))),
        j >= ls.len() ==> words_budget(ls, j) == 0,
    decreases ls.len() - j,
{
    lemma_lines_len_sum_nonneg(ls);
    if j >= ls.len() {
        assert(ls.take(j) =~= ls);
    } else {
        lemma_budget_le_twice_sum(ls, j + 1);
        assert(ls.take(j + 1).drop_last() =~= ls.take(j));
        assert(ls.take(j + 1).last() == ls[j]);
        assert(lines_len_sum(ls.take(j + 1)) == lines_len_sum(ls.take(j)) + ls[j].len());
    }
}

proof fn lemma_lines_len_sum_take_mono(ls: Seq<Seq<char>>, j: int)
    requires
        0 <= j <= ls.len(),
    ensures
        lines_len_sum(ls.take(j)) <= lines_len_sum(ls),
    decreases ls.len() - j,
{
    if j < ls.len() {
        lemma_lines_len_sum_take_mono(ls, j + 1);
        assert(ls.take(j + 1).drop_last() =~= ls.take(j));
        assert(ls.take(j + 1).last() == ls[j]);
    } else {
        assert(ls.take(j) =~= ls);
    }
}

/// The budget of a concatenation is the sum of the budgets.
pub proof fn lemma_words_budget_concat(a: Seq<Seq<char>>, b: Seq<Seq<char>>)
    ensures
        words_budget(a + b, 0) == words_budget(a, 0) + words_budget(b, 0),
    decreases a.len(),
{
    if a.len() == 0 {
        assert(a + b =~= b);
    } else {
        assert((a + b)[0] == a[0]);
        assert((a + b).drop_first() =~= a.drop_first() + b);
        lemma_words_budget_concat(a.drop_first(), b);
        lemma_words_budget_first(a);
        lemma_words_budget_first(a + b);
    }
}

/// The budget unfolds at the front.
pub proof fn lemma_words_budget_first(ws: Seq<Seq<char>>)
    requires
        ws.len() > 0,
    ensures
        words_budget(ws, 0) == 1 + ws[0].len() + words_budget(ws.drop_first(), 0),
{
    lemma_words_budget_shift(ws, ws.drop_first(), 1);
}

// ---------------------------------------------------------------------------
// Grapheme clusters.
// ---------------------------------------------------------------------------

/// The concatenation of a line list.
pub open spec fn concat_lines(ls: Seq<Seq<char>>) -> Seq<char>
    decreases ls.len(),
{
    if ls.len() == 0 {
        Seq::empty()
    } else {
        ls[0] + concat_lines(ls.drop_first())
    }
}

/// What unicode-segmentation's extended grapheme cluster segmentation
/// returns for a string.
pub uninterp spec fn graphemes_of(s: Seq<char>) -> Seq<Seq<char>>;

/// Relies on unicode_segmentation::UnicodeSegmentation::graphemes: the
/// extended grapheme clusters of `s`, which are non-empty and concatenate
/// back to `s`.
#[verifier::external_body]
fn grapheme_strings(s: &str) -> (r: Vec<String>)
    ensures
        r.deep_view() == graphemes_of(s@),
        concat_lines(r.deep_view()) == s@,
        forall|k: int|
            0 <= k < r.deep_view().len() ==> (#[trigger] r.deep_view()[k]).len() >= 1,
{
    unicode_segmentation::UnicodeSegmentation::graphemes(s, true).map(|g| g.to_string()).collect()
}

/// The budget of a non-empty-piece list is bounded by twice the length of
/// its concatenation.
pub proof fn lemma_concat_budget(ls: Seq<Seq<char>>)
    requires
        forall|k: int| 0 <= k < ls.len() ==> (#[trigger] ls[k]).len() >= 1,
    ensures
        words_budget(ls, 0) <= 2 * concat_lines(ls).len(),
        lines_len_sum(ls) <= concat_lines(ls).len(),
    decreases ls.len(),
{
    if ls.len() == 0 {
    } else {
        lemma_concat_budget(ls.drop_first());
        lemma_words_budget_first(ls);
        lemma_lines_len_sum_drop_first(ls);
    }
}

proof fn lemma_lines_len_sum_drop_first(ls: Seq<Seq<char>>)
    requires
        ls.len() > 0,
    ensures
        lines_len_sum(ls) == ls[0].len() + lines_len_sum(ls.drop_first()),
    decreases ls.len(),
{
    if ls.len() == 1 {
        assert(ls.drop_last() =~= Seq::<Seq<char>>::empty());
        assert(ls.drop_first() =~= Seq::<Seq<char>>::empty());
        assert(ls.last() == ls[0]);
    } else {
        lemma_lines_len_sum_drop_first(ls.drop_last());
        assert(ls.drop_last()[0] == ls[0]);
        assert(ls.drop_last().drop_first() =~= ls.drop_first().drop_last());
        assert(ls.drop_first().last() == ls.last());
    }
}

// ---------------------------------------------------------------------------
// Joining lines back to text.
// ---------------------------------------------------------------------------

/// The lines from `j` on, each preceded by a single space.
pub open spec fn join_tail(fs: Seq<Seq<char>>, j: int) -> Seq<char>
    decreases fs.len() - j,
{
    if j < 0 || j >= fs.len() {
        Seq::empty()
    } else {
        seq![' '] + fs[j] + join_tail(fs, j + 1)
    }
}

/// The lines joined by single spaces.
pub open spec fn join_ws(fs: Seq<Seq<char>>) -> Seq<char> {
    if fs.len() == 0 {
        Seq::empty()
    } else {
        fs[0] + join_tail(fs, 1)
    }
}

/// A joined tail is never longer than the word budget of what it joins.
pub proof fn lemma_join_tail_len(fs: Seq<Seq<char>>, j: int)
    requires
        0 <= j,
    ensures
        join_tail(fs, j).len() <= words_budget(fs, j),
    decreases fs.len() - j,
{
    if j < fs.len() {
        lemma_join_tail_len(fs, j + 1);
    }
}

/// A join is never longer than the word budget of what it joins.
pub proof fn lemma_join_len(fs: Seq<Seq<char>>)
    ensures
        join_ws(fs).len() <= words_budget(fs, 0),
{
    lemma_words_budget_nonneg(fs, 0);
    if fs.len() > 0 {
        lemma_join_tail_len(fs, 1);
        lemma_words_budget_first(fs);
        lemma_words_budget_shift(fs, fs.drop_first(), 1);
    }
}

/// Every line of a non-empty-line list counts towards its total length.
pub proof fn lemma_count_le_sum(ls: Seq<Seq<char>>)
    requires
        forall|k: int| 0 <= k < ls.len() ==> (#[trigger] ls[k]).len() >= 1,
    ensures
        ls.len() <= lines_len_sum(ls),
    decreases ls.len(),
{
    if ls.len() > 0 {
        lemma_count_le_sum(ls.drop_last());
        assert(forall|k: int|
            0 <= k < ls.drop_last().len() ==> (#[trigger] ls.drop_last()[k]).len() >= 1);
    }
}

/// Joins lines with single spaces.
fn join_lines(fs: &Vec<String>) -> (r: String)
    ensures
        r@ == join_ws(fs.deep_view()),
{
    let ghost whole = fs.deep_view();
    let n = fs.len();
    let mut r = String::new();
    let mut k: usize = 0;
    while k < n
        invariant
            n == fs@.len(),
            whole == fs.deep_view(),
            whole.len() == n,
            k <= n,
            k == 0 ==> r@ =~= Seq::<char>::empty(),
            k >= 1 ==> join_ws(whole) =~= r@ + join_tail(whole, k as int),
        decreases n - k,
    {
        let ghost pre = r@;
        if k > 0 {
            crate::chars::push_char(&mut r, ' ');
        }
        r.append(fs[k].as_str());
        proof {
            if k == 0 {
                assert(r@ =~= whole[0]);
                assert(join_ws(whole) =~= r@ + join_tail(whole, 1));
            } else {
                assert(r@ =~= pre + (seq![' '] + whole[k as int]));
                assert(join_tail(whole, k as int) =~= (seq![' '] + whole[k as int]) + join_tail(
                    whole,
                    k as int + 1,
                ));
                assert(join_ws(whole) =~= r@ + join_tail(whole, k as int + 1));
            }
        }
        k += 1;
    }
    proof {
        if n > 0 {
            assert(join_tail(whole, n as int) =~= Seq::<char>::empty());
            assert(r@ =~= join_ws(whole));
        } else {
            assert(r@ =~= join_ws(whole));
        }
    }
    r
}

// ---------------------------------------------------------------------------
// The wrapping entry point.
// ---------------------------------------------------------------------------

/// One round of grapheme-level splitting: every line the word pass left
/// wider than `maxw` is re-fit unit by unit, without separators.
pub open spec fn char_split_pass(
    f: &SuperFont,
    scale: Scale,
    emoji_aware: bool,
    lines: Seq<Seq<char>>,
    j: int,
    maxw: int,
) -> Seq<Seq<char>>
    decreases lines.len() - j,
{
    if j < 0 || j >= lines.len() {
        Seq::empty()
    } else {
        (if w_of(f, scale, emoji_aware, lines[j]) > maxw {
            break_rec(f, scale, emoji_aware, graphemes_of(lines[j]), 0, Seq::empty(), maxw, true)
        } else {
            seq![lines[j]]
        }) + char_split_pass(f, scale, emoji_aware, lines, j + 1, maxw)
    }
}

/// Character-style wrapping: a word pass, a grapheme-splitting pass over its
/// overflowing lines, then the fragments rejoined with single spaces and
/// word-wrapped once more to re-pack what the splitter cut.
pub open spec fn spec_text_wrap_character(
    f: &SuperFont,
    scale: Scale,
    emoji_aware: bool,
    text: Seq<char>,
    maxw: int,
) -> Seq<Seq<char>> {
    let first = spec_text_wrap_word(f, scale, emoji_aware, text, maxw);
    let frags = char_split_pass(f, scale, emoji_aware, first, 0, maxw);
    break_rec(f, scale, emoji_aware, split_ws(join_ws(frags)), 0, Seq::empty(), maxw, false)
}

/// The wrapping pipeline, with the measuring mode explicit: plain
/// measurement, or emoji-aware measurement of parsed text.
fn wrap_text_mode(
    text: &str,
    width: i64,
    font: &SuperFont,
    scale: Scale,
    wrap_style: WrapStyle,
    emoji_aware: bool,
) -> (r: Vec<String>)
    requires
        font.wf(),
        scale.wf(),
        8 * text@.len() + 16 <= MAX_TEXT_LEN as int,
    ensures
        wrap_style is Word ==> r.deep_view() == spec_text_wrap_word(font, scale, emoji_aware,
            text@,
            width as int,
        ),
        wrap_style is Character ==> r.deep_view() == spec_text_wrap_character(font, scale, emoji_aware,
            text@,
            width as int,
        ),
{
    let chars = crate::chars::str_to_chars(text);
    let words = split_whitespace_chars(&chars);
    proof {
        lemma_split_ws_ok(text@, 0);
    }
    let first = break_lines(font, scale, emoji_aware, &words, width, false, String::new());
    match wrap_style {
        WrapStyle::Word => first,
        WrapStyle::Character => {
            let ghost first_view = first.deep_view();
            let ghost cap1 = text@.len() + 1;
            let n = first.len();
            let mut frags: Vec<String> = Vec::new();
            let mut i: usize = 0;
            proof {
                assert(Seq::<Seq<char>>::empty() + char_split_pass(font, scale, emoji_aware,
                    first_view,
                    0,
                    width as int,
                ) =~= char_split_pass(font, scale, emoji_aware, first_view, 0, width as int));
            }
            while i < n
                invariant
                    font.wf(),
                    scale.wf(),
                    n == first@.len(),
                    first_view == first.deep_view(),
                    first_view.len() == n,
                    i <= n,
                    cap1 == text@.len() + 1,
                    8 * text@.len() + 16 <= MAX_TEXT_LEN as int,
                    forall|k: int|
                        0 <= k < n ==> (#[trigger] first_view[k]).len() <= cap1,
                    forall|k: int| 0 <= k < n ==> (#[trigger] first_view[k]).len() >= 1,
                    lines_len_sum(first_view) <= cap1,
                    char_split_pass(font, scale, emoji_aware, first_view, 0, width as int)
                        =~= frags.deep_view() + char_split_pass(font, scale, emoji_aware,
                        first_view,
                        i as int,
                        width as int,
                    ),
                    forall|k: int|
                        0 <= k < frags.deep_view().len() ==> (#[trigger] frags.deep_view()[k]).len()
                            >= 1,
                    words_budget(frags.deep_view(), 0) + 4 * (lines_len_sum(first_view)
                        - lines_len_sum(first_view.take(i as int)) + (n - i)) <= 4 * (
                    lines_len_sum(first_view) + n),
                decreases n - i,
            {
                let ghost pre_frags = frags.deep_view();
                proof {
                    assert(first_view.take(i as int + 1).drop_last() =~= first_view.take(i as int));
                    assert(first_view.take(i as int + 1).last() == first_view[i as int]);
                    lemma_lines_len_sum_take_mono(first_view, i as int);
                    lemma_lines_len_sum_nonneg(first_view.take(i as int));
                }
                let line = &first[i];
                let lw = if emoji_aware {
                    crate::measure::parsed_text_width_with_emojis(scale, font, line.as_str())
                } else {
                    text_width(scale, font, line.as_str())
                };
                if lw > width {
                    let units = grapheme_strings(line.as_str());
                    proof {
                        lemma_concat_budget(units.deep_view());
                    }
                    let mut sub = break_lines(font, scale, emoji_aware, &units, width, true, String::new());
                    let ghost sub_view = sub.deep_view();
                    proof {
                        lemma_budget_le_twice_sum(sub_view, 0);
                        assert(sub_view.take(0) =~= Seq::<Seq<char>>::empty());
                        lemma_words_budget_concat(pre_frags, sub_view);
                        assert(pre_frags + sub_view =~= (frags@ + sub@).map_values(
                            |x: String| x@,
                        )) by {
                            assert(forall|k: int|
                                0 <= k < frags@.len() + sub@.len() ==> (frags@ + sub@)[k] == (
                                if k < frags@.len() {
                                    frags@[k]
                                } else {
                                    sub@[k - frags@.len()]
                                }));
                        }
                    }
                    frags.append(&mut sub);
                    proof {
                        assert(frags.deep_view() =~= pre_frags + sub_view);
                        assert(frags.deep_view() + char_split_pass(font, scale, emoji_aware,
                            first_view,
                            i as int + 1,
                            width as int,
                        ) =~= pre_frags + (sub_view + char_split_pass(font, scale, emoji_aware,
                            first_view,
                            i as int + 1,
                            width as int,
                        )));
                    }
                } else {
                    frags.push(first[i].clone());
                    proof {
                        assert(frags.deep_view() =~= pre_frags.push(first_view[i as int]));
                        lemma_words_budget_concat(pre_frags, seq![first_view[i as int]]);
                        assert(pre_frags.push(first_view[i as int]) =~= pre_frags + seq![
                            first_view[i as int],
                        ]);
                        assert(words_budget(seq![first_view[i as int]], 0) == 1
                            + first_view[i as int].len()) by {
                            assert(words_budget(seq![first_view[i as int]], 1) == 0);
                        }
                        assert(frags.deep_view() + char_split_pass(font, scale, emoji_aware,
                            first_view,
                            i as int + 1,
                            width as int,
                        ) =~= pre_frags + (seq![first_view[i as int]] + char_split_pass(font, scale, emoji_aware,
                            first_view,
                            i as int + 1,
                            width as int,
                        )));
                    }
                }
                i += 1;
            }
            proof {
                assert(first_view.take(n as int) =~= first_view);
                assert(char_split_pass(font, scale, emoji_aware, first_view, n as int, width as int)
                    =~= Seq::<Seq<char>>::empty());
                assert(frags.deep_view() =~= char_split_pass(font, scale, emoji_aware,
                    first_view,
                    0,
                    width as int,
                ));
                lemma_join_len(frags.deep_view());
                lemma_words_budget_nonneg(frags.deep_view(), 0);
                lemma_count_le_sum(first_view);
            }
            let joined = join_lines(&frags);
            let jchars = crate::chars::str_to_chars(joined.as_str());
            let words2 = split_whitespace_chars(&jchars);
            proof {
                lemma_split_ws_ok(joined@, 0);
                lemma_lines_len_sum_nonneg(first_view);
            }
            break_lines(font, scale, emoji_aware, &words2, width, false, String::new())
        },
    }
}


/// Breaks `text` into width-constrained lines. Word style keeps words
/// whole: a word that alone overflows `maxw` gets its own line. Character
/// style re-splits such lines by grapheme cluster and then re-packs the
/// fragments with one more word pass. Widths are measured in subunits, as
/// [`text_width`] reports them. The length bound keeps every candidate line
/// the measuring pass can see inside the measurable range.
pub fn text_wrap(
    text: &str,
    width: i64,
    font: &SuperFont,
    scale: Scale,
    wrap_style: WrapStyle,
) -> (r: Vec<String>)
    requires
        font.wf(),
        scale.wf(),
        8 * text@.len() + 16 <= MAX_TEXT_LEN as int,
    ensures
        wrap_style is Word ==> r.deep_view() == spec_text_wrap_word(
            font,
            scale,
            false,
            text@,
            width as int,
        ),
        wrap_style is Character ==> r.deep_view() == spec_text_wrap_character(
            font,
            scale,
            false,
            text@,
            width as int,
        ),
{
    wrap_text_mode(text, width, font, scale, wrap_style, false)
}

/// Breaks parsed text into width-constrained lines, measuring each
/// candidate with emoji awareness: the placeholder character takes the
/// emoji font's glyph at the emoji scale, as
/// [`crate::measure::parsed_text_width_with_emojis`] reports it.
pub fn text_wrap_with_emojis(
    text: &str,
    width: i64,
    font: &SuperFont,
    scale: Scale,
    wrap_style: WrapStyle,
) -> (r: Vec<String>)
    requires
        font.wf(),
        scale.wf(),
        8 * text@.len() + 16 <= MAX_TEXT_LEN as int,
    ensures
        wrap_style is Word ==> r.deep_view() == spec_text_wrap_word(
            font,
            scale,
            true,
            text@,
            width as int,
        ),
        wrap_style is Character ==> r.deep_view() == spec_text_wrap_character(
            font,
            scale,
            true,
            text@,
            width as int,
        ),
{
    wrap_text_mode(text, width, font, scale, wrap_style, true)
}

// ---------------------------------------------------------------------------
// Laws of the line breaker.
// ---------------------------------------------------------------------------

/// Measuring a prefix of a text never gives more than measuring the whole:
/// the layout walks left to right and the width folds its bounding boxes.
pub proof fn lemma_w_of_prefix(f: &SuperFont, scale: Scale, emoji_aware: bool, s: Seq<char>, m: int)
    requires
        0 <= m <= s.len(),
    ensures
        w_of(f, scale, emoji_aware, s.take(m)) <= w_of(f, scale, emoji_aware, s),
{
    crate::layout::lemma_unit_layout_prefix(f, s, m, emoji_aware);
    crate::layout::lemma_unit_layout_len(f, s, 0, 0, None, emoji_aware);
    crate::measure::lemma_width_fold_take_mono(crate::layout::unit_layout(f, s, emoji_aware), m);
    let a = spec_unit_text_width(f, s.take(m), emoji_aware);
    let b = spec_unit_text_width(f, s, emoji_aware);
    vstd::arithmetic::mul::lemma_mul_inequality(a, b, scale.x as int);
    assert(scale.x * a == a * scale.x) by (nonlinear_arith);
    assert(scale.x * b == b * scale.x) by (nonlinear_arith);
}

/// Every line the greedy fit emits either fits the width budget or is one
/// word of its input, kept whole on a line of its own. Holds for word-style
/// runs (with separators) over clean words.
pub proof fn lemma_break_rec_fits(
    f: &SuperFont,
    scale: Scale,
    emoji_aware: bool,
    ws: Seq<Seq<char>>,
    j: int,
    line: Seq<char>,
    maxw: int,
)
    requires
        0 <= j,
        forall|k: int| 0 <= k < ws.len() ==> clean_word(#[trigger] ws[k]),
        line.len() == 0 || (!is_ws_char(line[0]) && !is_ws_char(line.last()) && (w_of(f, scale, emoji_aware,
            line,
        ) <= maxw || ws.contains(line))),
    ensures
        forall|k: int|
            0 <= k < break_rec(f, scale, emoji_aware, ws, j, line, maxw, false).len() ==> {
                let l = #[trigger] break_rec(f, scale, emoji_aware, ws, j, line, maxw, false)[k];
                w_of(f, scale, emoji_aware, l) <= maxw || ws.contains(l)
            },
    decreases ws.len() - j,
{
    let res = break_rec(f, scale, emoji_aware, ws, j, line, maxw, false);
    if j >= ws.len() {
        lemma_trim_clean(line);
        if trim_ws(line).len() > 0 {
            assert(res[0] == line);
        }
    } else {
        assert(ws.contains(ws[j]));
        assert(clean_word(ws[j]));
        assert(!is_ws_char(ws[j][0]));
        assert(!is_ws_char(ws[j].last()));
        let cand = if line.len() > 0 {
            line + seq![' '] + ws[j]
        } else {
            line + ws[j]
        };
        if w_of(f, scale, emoji_aware, cand) > maxw {
            lemma_break_rec_fits(f, scale, emoji_aware, ws, j + 1, ws[j], maxw);
            let rest = break_rec(f, scale, emoji_aware, ws, j + 1, ws[j], maxw, false);
            if line.len() > 0 {
                assert forall|k: int| 0 <= k < res.len() implies {
                    let l = #[trigger] res[k];
                    w_of(f, scale, emoji_aware, l) <= maxw || ws.contains(l)
                } by {
                    if k == 0 {
                        assert(res[0] == line);
                    } else {
                        assert(res[k] == rest[k - 1]);
                        assert(w_of(f, scale, emoji_aware, rest[k - 1]) <= maxw || ws.contains(rest[k - 1]));
                    }
                }
            } else {
                assert forall|k: int| 0 <= k < res.len() implies {
                    let l = #[trigger] res[k];
                    w_of(f, scale, emoji_aware, l) <= maxw || ws.contains(l)
                } by {
                    assert(res[k] == rest[k]);
                    assert(w_of(f, scale, emoji_aware, rest[k]) <= maxw || ws.contains(rest[k]));
                }
            }
        } else {
            if line.len() > 0 {
                assert(cand =~= (line + seq![' ']) + ws[j]);
                assert(cand[0] == line[0]);
                assert(cand.last() == ws[j].last());
            } else {
                assert(cand =~= ws[j]);
            }
            lemma_break_rec_fits(f, scale, emoji_aware, ws, j + 1, cand, maxw);
            let rest = break_rec(f, scale, emoji_aware, ws, j + 1, cand, maxw, false);
            assert forall|k: int| 0 <= k < res.len() implies {
                let l = #[trigger] res[k];
                w_of(f, scale, emoji_aware, l) <= maxw || ws.contains(l)
            } by {
                assert(res[k] == rest[k]);
                assert(w_of(f, scale, emoji_aware, rest[k]) <= maxw || ws.contains(rest[k]));
            }
        }
    }
}

/// Every line of a word wrap fits the width budget or is a single
/// whitespace-delimited word of the text.
pub proof fn lemma_word_wrap_fits(
    f: &SuperFont,
    scale: Scale,
    emoji_aware: bool,
    text: Seq<char>,
    maxw: int,
)
    ensures
        forall|k: int|
            0 <= k < spec_text_wrap_word(f, scale, emoji_aware, text, maxw).len() ==> {
                let l = #[trigger] spec_text_wrap_word(f, scale, emoji_aware, text, maxw)[k];
                w_of(f, scale, emoji_aware, l) <= maxw || split_ws(text).contains(l)
            },
{
    lemma_split_ws_ok(text, 0);
    lemma_break_rec_fits(f, scale, emoji_aware, split_ws(text), 0, Seq::empty(), maxw);
}

/// Every line of a character wrap fits the width budget or is a single
/// whitespace-free fragment that grapheme splitting could not shorten.
pub proof fn lemma_character_wrap_fits(
    f: &SuperFont,
    scale: Scale,
    emoji_aware: bool,
    text: Seq<char>,
    maxw: int,
)
    ensures
        forall|k: int|
            0 <= k < spec_text_wrap_character(f, scale, emoji_aware, text, maxw).len() ==> {
                let l = #[trigger] spec_text_wrap_character(f, scale, emoji_aware, text, maxw)[k];
                w_of(f, scale, emoji_aware, l) <= maxw || clean_word(l)
            },
{
    let first = spec_text_wrap_word(f, scale, emoji_aware, text, maxw);
    let frags = char_split_pass(f, scale, emoji_aware, first, 0, maxw);
    let joined = join_ws(frags);
    lemma_split_ws_ok(joined, 0);
    lemma_break_rec_fits(f, scale, emoji_aware, split_ws(joined), 0, Seq::empty(), maxw);
    assert forall|k: int|
        0 <= k < spec_text_wrap_character(f, scale, emoji_aware, text, maxw).len() implies {
        let l = #[trigger] spec_text_wrap_character(f, scale, emoji_aware, text, maxw)[k];
        w_of(f, scale, emoji_aware, l) <= maxw || clean_word(l)
    } by {
        let l = spec_text_wrap_character(f, scale, emoji_aware, text, maxw)[k];
        if !(w_of(f, scale, emoji_aware, l) <= maxw) {
            assert(split_ws(joined).contains(l));
            let i = choose|i: int| 0 <= i < split_ws(joined).len() && split_ws(joined)[i] == l;
            assert(clean_word(split_ws(joined)[i]));
        }
    }
}

/// An all-whitespace text splits into no words.
proof fn lemma_split_ws_all_ws(text: Seq<char>, i: int)
    requires
        0 <= i,
        forall|k: int| 0 <= k < text.len() ==> is_ws_char(#[trigger] text[k]),
    ensures
        split_ws_from(text, i) == Seq::<Seq<char>>::empty(),
    decreases text.len() - i,
{
    if 0 <= i < text.len() {
        lemma_split_ws_all_ws(text, i + 1);
    }
}

/// Wrapping an empty or all-whitespace text yields no lines, in either
/// style.
pub proof fn lemma_wrap_whitespace_empty(
    f: &SuperFont,
    scale: Scale,
    emoji_aware: bool,
    text: Seq<char>,
    maxw: int,
)
    requires
        forall|k: int| 0 <= k < text.len() ==> is_ws_char(#[trigger] text[k]),
    ensures
        spec_text_wrap_word(f, scale, emoji_aware, text, maxw) == Seq::<Seq<char>>::empty(),
        spec_text_wrap_character(f, scale, emoji_aware, text, maxw) == Seq::<Seq<char>>::empty(),
{
    lemma_split_ws_all_ws(text, 0);
    assert(trim_ws(Seq::<char>::empty()) =~= Seq::<char>::empty());
    assert(spec_text_wrap_word(f, scale, emoji_aware, text, maxw) =~= Seq::<Seq<char>>::empty());
    let first = spec_text_wrap_word(f, scale, emoji_aware, text, maxw);
    let frags = char_split_pass(f, scale, emoji_aware, first, 0, maxw);
    assert(frags =~= Seq::<Seq<char>>::empty());
    assert(join_ws(frags) =~= Seq::<char>::empty());
    lemma_split_ws_all_ws(join_ws(frags), 0);
    assert(spec_text_wrap_character(f, scale, emoji_aware, text, maxw) =~= Seq::<Seq<char>>::empty());
}

/// Wrapping a single non-whitespace character that fits the width yields
/// exactly one line holding that character.
pub proof fn lemma_wrap_single_char(
    f: &SuperFont,
    scale: Scale,
    emoji_aware: bool,
    c: char,
    maxw: int,
)
    requires
        !is_ws_char(c),
        w_of(f, scale, emoji_aware, seq![c]) <= maxw,
    ensures
        spec_text_wrap_word(f, scale, emoji_aware, seq![c], maxw) == seq![seq![c]],
{
    let text = seq![c];
    assert(run_while(text, 1, non_ws_fn()) == 0);
    assert(run_while(text, 0, non_ws_fn()) == 1);
    assert(spec_run_guard(text, 0) == 1);
    assert(split_ws_from(text, 1) =~= Seq::<Seq<char>>::empty());
    assert(text.subrange(0, 1) =~= seq![c]);
    let ws = split_ws(text);
    assert(ws =~= seq![seq![c]]);
    assert(Seq::<char>::empty() + seq![c] =~= seq![c]);
    assert(break_rec(f, scale, emoji_aware, ws, 1, seq![c], maxw, false) =~= seq![seq![c]]) by {
        lemma_trim_clean(seq![c]);
    }
    assert(spec_text_wrap_word(f, scale, emoji_aware, text, maxw) =~= seq![seq![c]]);
}

// ---------------------------------------------------------------------------
// Idempotence of word wrap on a fitting line.
// ---------------------------------------------------------------------------

/// Joining one more word appends a separator and the word.
proof fn lemma_join_tail_take(ws: Seq<Seq<char>>, k: int, j: int)
    requires
        1 <= j <= k < ws.len(),
    ensures
        join_tail(ws.take(k + 1), j) == join_tail(ws.take(k), j) + seq![' '] + ws[k],
    decreases k - j,
{
    if j == k {
        assert(join_tail(ws.take(k + 1), k + 1) =~= Seq::<char>::empty());
        assert(ws.take(k + 1)[k] == ws[k]);
        assert(join_tail(ws.take(k), k) =~= Seq::<char>::empty());
        assert(join_tail(ws.take(k + 1), k) =~= (Seq::<char>::empty() + seq![' ']) + ws[k]);
    } else {
        lemma_join_tail_take(ws, k, j + 1);
        assert(ws.take(k + 1)[j] == ws[j]);
        assert(ws.take(k)[j] == ws[j]);
        assert(seq![' '] + ws[j] + (join_tail(ws.take(k), j + 1) + seq![' '] + ws[k]) =~= (seq![' ']
            + ws[j] + join_tail(ws.take(k), j + 1)) + seq![' '] + ws[k]);
    }
}

/// The join of one more word.
pub proof fn lemma_join_take_step(ws: Seq<Seq<char>>, k: int)
    requires
        1 <= k < ws.len(),
    ensures
        join_ws(ws.take(k + 1)) == join_ws(ws.take(k)) + seq![' '] + ws[k],
{
    lemma_join_tail_take(ws, k, 1);
    assert(ws.take(k + 1)[0] == ws[0]);
    assert(ws.take(k)[0] == ws[0]);
    assert(ws[0] + (join_tail(ws.take(k), 1) + seq![' '] + ws[k]) =~= (ws[0] + join_tail(
        ws.take(k),
        1,
    )) + seq![' '] + ws[k]);
}

/// The whole join decomposes at any word boundary.
proof fn lemma_join_decompose(ws: Seq<Seq<char>>, k: int)
    requires
        1 <= k <= ws.len(),
    ensures
        join_ws(ws) == join_ws(ws.take(k)) + join_tail(ws, k),
    decreases ws.len() - k,
{
    if k == ws.len() {
        assert(ws.take(k) =~= ws);
        assert(join_tail(ws, k) =~= Seq::<char>::empty());
        assert(join_ws(ws.take(k)) + join_tail(ws, k) =~= join_ws(ws));
    } else {
        lemma_join_decompose(ws, k + 1);
        lemma_join_take_step(ws, k);
        assert((join_ws(ws.take(k)) + seq![' '] + ws[k]) + join_tail(ws, k + 1) =~= join_ws(
            ws.take(k),
        ) + ((seq![' '] + ws[k]) + join_tail(ws, k + 1)));
        assert(join_tail(ws, k) =~= (seq![' '] + ws[k]) + join_tail(ws, k + 1));
        assert(join_ws(ws.take(k)) + join_tail(ws, k) =~= join_ws(ws));
    }
}

/// A join of clean words starts and ends with non-whitespace.
proof fn lemma_join_clean_ends(ws: Seq<Seq<char>>)
    requires
        ws.len() >= 1,
        forall|k: int| 0 <= k < ws.len() ==> clean_word(#[trigger] ws[k]),
    ensures
        join_ws(ws).len() >= 1,
        !is_ws_char(join_ws(ws)[0]),
        !is_ws_char(join_ws(ws).last()),
{
    assert(clean_word(ws[0]));
    assert(join_ws(ws)[0] == ws[0][0]);
    lemma_join_tail_last(ws, 1);
    if ws.len() == 1 {
        assert(join_tail(ws, 1) =~= Seq::<char>::empty());
        assert(join_ws(ws) =~= ws[0]);
    } else {
        assert(join_ws(ws).last() == join_tail(ws, 1).last());
        assert(clean_word(ws[ws.len() - 1]));
    }
}

/// A non-empty joined tail ends with the last word's last character.
proof fn lemma_join_tail_last(ws: Seq<Seq<char>>, j: int)
    requires
        1 <= j,
        forall|k: int| 0 <= k < ws.len() ==> clean_word(#[trigger] ws[k]),
    ensures
        j < ws.len() ==> join_tail(ws, j).len() >= 1 && join_tail(ws, j).last() == ws[ws.len()
            - 1].last(),
    decreases ws.len() - j,
{
    if j < ws.len() {
        lemma_join_tail_last(ws, j + 1);
        if j + 1 < ws.len() {
            assert(join_tail(ws, j).last() == join_tail(ws, j + 1).last());
        } else {
            assert(clean_word(ws[j]));
            assert(join_tail(ws, j + 1) =~= Seq::<char>::empty());
            assert(join_tail(ws, j) =~= seq![' '] + ws[j]);
            assert(join_tail(ws, j).last() == ws[j].last());
        }
    }
}

/// From word `j` on, with the candidate holding the first `j` words joined,
/// a fitting line is never broken: the fit accepts every word and emits the
/// whole line once.
proof fn lemma_accept_from(
    f: &SuperFont,
    scale: Scale,
    emoji_aware: bool,
    ws: Seq<Seq<char>>,
    j: int,
    maxw: int,
)
    requires
        1 <= j <= ws.len(),
        forall|k: int| 0 <= k < ws.len() ==> clean_word(#[trigger] ws[k]),
        w_of(f, scale, emoji_aware, join_ws(ws)) <= maxw,
    ensures
        break_rec(f, scale, emoji_aware, ws, j, join_ws(ws.take(j)), maxw, false) == seq![join_ws(ws)],
    decreases ws.len() - j,
{
    let line = join_ws(ws.take(j));
    assert(forall|k: int| 0 <= k < ws.take(j).len() ==> clean_word(#[trigger] ws.take(j)[k]));
    lemma_join_clean_ends(ws.take(j));
    if j == ws.len() {
        assert(ws.take(j) =~= ws);
        lemma_trim_clean(line);
        assert(break_rec(f, scale, emoji_aware, ws, j, line, maxw, false) =~= seq![join_ws(ws)]);
    } else {
        let cand = line + seq![' '] + ws[j];
        lemma_join_take_step(ws, j);
        assert(cand == join_ws(ws.take(j + 1)));
        lemma_join_decompose(ws, j + 1);
        assert(join_ws(ws.take(j + 1)) == join_ws(ws).take(join_ws(ws.take(j + 1)).len() as int))
            by {
            assert(join_ws(ws) == join_ws(ws.take(j + 1)) + join_tail(ws, j + 1));
            assert(join_ws(ws).take(join_ws(ws.take(j + 1)).len() as int) =~= join_ws(
                ws.take(j + 1),
            ));
        }
        lemma_w_of_prefix(f, scale, emoji_aware, join_ws(ws), join_ws(ws.take(j + 1)).len() as int);
        assert(w_of(f, scale, emoji_aware, cand) <= maxw);
        lemma_accept_from(f, scale, emoji_aware, ws, j + 1, maxw);
    }
}

/// Word wrap is idempotent on a fitting line: a non-empty line that is
/// already normalized (its words joined by single spaces) and fits the width
/// comes back unchanged as the only line.
pub proof fn lemma_wrap_idempotent(
    f: &SuperFont,
    scale: Scale,
    emoji_aware: bool,
    line: Seq<char>,
    maxw: int,
)
    requires
        line.len() > 0,
        line == join_ws(split_ws(line)),
        w_of(f, scale, emoji_aware, line) <= maxw,
    ensures
        spec_text_wrap_word(f, scale, emoji_aware, line, maxw) == seq![line],
{
    let ws = split_ws(line);
    lemma_split_ws_ok(line, 0);
    assert(ws.len() >= 1) by {
        if ws.len() == 0 {
            assert(join_ws(ws) =~= Seq::<char>::empty());
        }
    }
    assert(Seq::<char>::empty() + ws[0] =~= ws[0]);
    assert(join_ws(ws.take(1)) =~= ws[0]) by {
        assert(ws.take(1)[0] == ws[0]);
        assert(join_tail(ws.take(1), 1) =~= Seq::<char>::empty());
    }
    lemma_join_decompose(ws, 1);
    assert(ws[0] == join_ws(ws).take(ws[0].len() as int)) by {
        assert(join_ws(ws).take(ws[0].len() as int) =~= join_ws(ws.take(1)));
    }
    lemma_w_of_prefix(f, scale, emoji_aware, join_ws(ws), ws[0].len() as int);
    assert(w_of(f, scale, emoji_aware, ws[0]) <= maxw);
    lemma_accept_from(f, scale, emoji_aware, ws, 1, maxw);
    assert(break_rec(f, scale, emoji_aware, ws, 0, Seq::empty(), maxw, false) == break_rec(f, scale, emoji_aware,
        ws,
        1,
        ws[0],
        maxw,
        false,
    ));
}

} // verus!
