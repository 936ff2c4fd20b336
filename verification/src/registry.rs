//! The emoji registry: the table of canonical emoji strings (with their
//! skin-tone variants) and the shortcode index, as the tokenizer consumes
//! them. The raw data comes from the `emojis` crate through the trusted
//! wrappers below; the assembly of the tables is verified, and the contract
//! of [`build_regex`] pins the tables' structure exactly: per base emoji,
//! the non-empty canonical string, its non-empty skin-tone variants in tone
//! order, and one shortcode alias per name. The placeholder character leads
//! the table, so text the emoji scanner produced always re-tokenizes its
//! placeholders as emoji.

use vstd::prelude::*;

use crate::token::PLACEHOLDER_EMOJI;

verus! {

/// What [`emojis::Emoji::with_skin_tone`] answers for the emoji with
/// canonical string `emoji` and the skin tone numbered `tone`: a function of
/// the crate's static data alone.
pub uninterp spec fn tone_variant_of(emoji: Seq<char>, tone: u8) -> Option<Seq<char>>;

/// What [`emojis::Emoji::shortcodes`] answers for the emoji with canonical
/// string `emoji`: a function of the crate's static data alone.
pub uninterp spec fn shortcodes_of(emoji: Seq<char>) -> Seq<Seq<char>>;

/// Relies on emojis::iter and emojis::Emoji::as_str: the canonical string of
/// every emoji, in the crate's order. The list is static data, but the
/// function takes no argument its result could be named by, so no contract
/// relates two calls.
#[verifier::external_body]
fn all_emoji_strings() -> (r: Vec<String>) {
    emojis::iter().map(|e| e.as_str().to_string()).collect()
}

/// Relies on emojis::get and emojis::Emoji::with_skin_tone: the canonical
/// string of the variant of `emoji` with the skin tone numbered by `tone`
/// (0 light .. 4 dark), or `None` where the emoji has no such variant. The
/// answer depends on the arguments alone, so it carries the name
/// [`tone_variant_of`].
#[verifier::external_body]
fn skin_tone_variant(emoji: &str, tone: u8) -> (r: Option<String>)
    ensures
        match r {
            Some(s) => tone_variant_of(emoji@, tone) == Some(s@),
            None => tone_variant_of(emoji@, tone) is None,
        },
{
    let t = match tone {
        0 => emojis::SkinTone::Light,
        1 => emojis::SkinTone::MediumLight,
        2 => emojis::SkinTone::Medium,
        3 => emojis::SkinTone::MediumDark,
        _ => emojis::SkinTone::Dark,
    };
    match emojis::get(emoji) {
        Some(e) => e.with_skin_tone(t).map(|v| v.as_str().to_string()),
        None => None,
    }
}

/// Relies on emojis::get and emojis::Emoji::shortcodes: the GitHub
/// shortcodes of `emoji`, empty where it has none or is unknown. The answer
/// depends on the argument alone, so it carries the name [`shortcodes_of`].
#[verifier::external_body]
fn emoji_shortcodes(emoji: &str) -> (r: Vec<String>)
    ensures
        r.deep_view() == shortcodes_of(emoji@),
{
    match emojis::get(emoji) {
        Some(e) => e.shortcodes().map(|s| s.to_string()).collect(),
        None => Vec::new(),
    }
}

/// One canonical emoji the tokenizer can match.
pub struct EmojiPattern {
    /// The canonical string, one character per element.
    pub chars: Vec<char>,
}

/// One shortcode alias: the name between the colons, and the canonical
/// string of the emoji it resolves to.
pub struct ShortcodeAlias {
    pub name: Vec<char>,
    pub emoji: Vec<char>,
}

/// The matching tables the tokenizer works against: every canonical emoji
/// string (with skin-tone variants) and the shortcode index.
pub struct EmojiIndex {
    pub entries: Vec<EmojiPattern>,
    pub shortcodes: Vec<ShortcodeAlias>,
}

/// The mathematical content of an [`EmojiIndex`]: the entry strings and the
/// shortcode pairs.
pub struct EmojiIndexView {
    pub entries: Seq<Seq<char>>,
    pub shortcodes: Seq<(Seq<char>, Seq<char>)>,
}

/// The entry strings of a pattern table.
pub open spec fn pat_views(ps: Seq<EmojiPattern>) -> Seq<Seq<char>> {
    ps.map_values(|p: EmojiPattern| p.chars@)
}

/// The pairs of an alias table.
pub open spec fn alias_views(als: Seq<ShortcodeAlias>) -> Seq<(Seq<char>, Seq<char>)> {
    als.map_values(|a: ShortcodeAlias| (a.name@, a.emoji@))
}

impl View for EmojiIndex {
    type V = EmojiIndexView;

    open spec fn view(&self) -> EmojiIndexView {
        EmojiIndexView { entries: pat_views(self.entries@), shortcodes: alias_views(self.shortcodes@) }
    }
}

impl EmojiIndexView {
    /// Every matchable entry is non-empty, so a match always consumes text.
    pub open spec fn wf(self) -> bool {
        forall|i: int| 0 <= i < self.entries.len() ==> #[trigger] self.entries[i].len() >= 1
    }
}

impl EmojiIndex {
    pub open spec fn wf(&self) -> bool {
        self@.wf()
    }
}

// ---------------------------------------------------------------------------
// What the assembled tables hold, exactly.
// ---------------------------------------------------------------------------

/// The non-empty strings of `vs`, in order.
pub open spec fn nonempty_of(vs: Seq<Seq<char>>) -> Seq<Seq<char>>
    decreases vs.len(),
{
    if vs.len() == 0 {
        Seq::empty()
    } else {
        (if vs[0].len() >= 1 {
            seq![vs[0]]
        } else {
            Seq::<Seq<char>>::empty()
        }) + nonempty_of(vs.drop_first())
    }
}

/// The match entries one emoji contributes: its canonical string, where
/// non-empty, followed by its non-empty variants in order.
pub open spec fn entries_of_emoji(b: Seq<char>, vs: Seq<Seq<char>>) -> Seq<Seq<char>> {
    (if b.len() >= 1 {
        seq![b]
    } else {
        Seq::<Seq<char>>::empty()
    }) + nonempty_of(vs)
}

/// The whole entry table, from emoji `i` on.
pub open spec fn spec_entries(base: Seq<Seq<char>>, variants: Seq<Seq<Seq<char>>>, i: int) -> Seq<
    Seq<char>,
>
    decreases base.len() - i,
{
    if i < 0 || i >= base.len() {
        Seq::empty()
    } else {
        entries_of_emoji(
            base[i],
            if i < variants.len() {
                variants[i]
            } else {
                Seq::empty()
            },
        ) + spec_entries(base, variants, i + 1)
    }
}

/// The alias pairs one emoji contributes: one `(name, canonical)` pair per
/// name, in order.
pub open spec fn pairs_of(b: Seq<char>, ns: Seq<Seq<char>>) -> Seq<(Seq<char>, Seq<char>)>
    decreases ns.len(),
{
    if ns.len() == 0 {
        Seq::empty()
    } else {
        seq![(ns[0], b)] + pairs_of(b, ns.drop_first())
    }
}

/// The whole alias table, from emoji `i` on.
pub open spec fn spec_aliases(base: Seq<Seq<char>>, names: Seq<Seq<Seq<char>>>, i: int) -> Seq<
    (Seq<char>, Seq<char>),
>
    decreases base.len() - i,
{
    if i < 0 || i >= base.len() {
        Seq::empty()
    } else {
        pairs_of(
            base[i],
            if i < names.len() {
                names[i]
            } else {
                Seq::empty()
            },
        ) + spec_aliases(base, names, i + 1)
    }
}

/// The skin-tone variants the emoji data gives one canonical string, in tone
/// order, present tones only.
pub open spec fn tone_list(e: Seq<char>, t: int) -> Seq<Seq<char>>
    decreases 5 - t,
{
    if t < 0 || t >= 5 {
        Seq::empty()
    } else {
        (match tone_variant_of(e, t as u8) {
            Some(v) => seq![v],
            None => Seq::<Seq<char>>::empty(),
        }) + tone_list(e, t + 1)
    }
}

/// The index the emoji data determines for a given base list: entries from
/// each base string and its tone variants, aliases from each base string's
/// shortcode names.
pub open spec fn index_from(base: Seq<Seq<char>>) -> EmojiIndexView {
    EmojiIndexView {
        entries: spec_entries(base, Seq::new(base.len(), |i: int| tone_list(base[i], 0)), 0),
        shortcodes: spec_aliases(base, Seq::new(base.len(), |i: int| shortcodes_of(base[i])), 0),
    }
}

/// Every assembled entry is non-empty.
pub proof fn lemma_spec_entries_nonempty(
    base: Seq<Seq<char>>,
    variants: Seq<Seq<Seq<char>>>,
    i: int,
)
    ensures
        forall|k: int|
            0 <= k < spec_entries(base, variants, i).len() ==> (#[trigger] spec_entries(
                base,
                variants,
                i,
            )[k]).len() >= 1,
    decreases base.len() - i,
{
    if 0 <= i < base.len() {
        lemma_spec_entries_nonempty(base, variants, i + 1);
        let vs = if i < variants.len() {
            variants[i]
        } else {
            Seq::empty()
        };
        lemma_nonempty_of_nonempty(vs);
        let head = entries_of_emoji(base[i], vs);
        assert forall|k: int|
            0 <= k < spec_entries(base, variants, i).len() implies (#[trigger] spec_entries(
            base,
            variants,
            i,
        )[k]).len() >= 1 by {
            if k < head.len() {
                assert(spec_entries(base, variants, i)[k] == head[k]);
                if base[i].len() >= 1 {
                    if k > 0 {
                        assert(head[k] == nonempty_of(vs)[k - 1]);
                    }
                } else {
                    assert(head[k] == nonempty_of(vs)[k]);
                }
            } else {
                assert(spec_entries(base, variants, i)[k] == spec_entries(base, variants, i + 1)[k
                    - head.len()]);
            }
        }
    }
}

proof fn lemma_nonempty_of_nonempty(vs: Seq<Seq<char>>)
    ensures
        forall|k: int|
            0 <= k < nonempty_of(vs).len() ==> (#[trigger] nonempty_of(vs)[k]).len() >= 1,
    decreases vs.len(),
{
    if vs.len() > 0 {
        lemma_nonempty_of_nonempty(vs.drop_first());
        assert forall|k: int|
            0 <= k < nonempty_of(vs).len() implies (#[trigger] nonempty_of(vs)[k]).len() >= 1 by {
            if vs[0].len() >= 1 {
                if k > 0 {
                    assert(nonempty_of(vs)[k] == nonempty_of(vs.drop_first())[k - 1]);
                }
            } else {
                assert(nonempty_of(vs)[k] == nonempty_of(vs.drop_first())[k]);
            }
        }
    }
}

/// A non-empty leading base string leads the assembled entries.
pub proof fn lemma_spec_entries_first(base: Seq<Seq<char>>, variants: Seq<Seq<Seq<char>>>)
    requires
        base.len() >= 1,
        base[0].len() >= 1,
    ensures
        spec_entries(base, variants, 0).len() >= 1,
        spec_entries(base, variants, 0)[0] == base[0],
{
    let vs = if 0 < variants.len() {
        variants[0]
    } else {
        Seq::empty()
    };
    assert(entries_of_emoji(base[0], vs)[0] == base[0]);
    assert(spec_entries(base, variants, 0)[0] == entries_of_emoji(base[0], vs)[0]);
}

// ---------------------------------------------------------------------------
// Verified assembly.
// ---------------------------------------------------------------------------

/// Appends `s` to the entry table unless it is empty.
fn push_entry(entries: &mut Vec<EmojiPattern>, s: &String)
    ensures
        pat_views(final(entries)@) == pat_views(old(entries)@) + (if s@.len() >= 1 {
            seq![s@]
        } else {
            Seq::<Seq<char>>::empty()
        }),
{
    if !s.as_str().is_empty() {
        let chars = crate::chars::str_to_chars(s.as_str());
        let ghost pre = entries@;
        entries.push(EmojiPattern { chars });
        proof {
            assert(pat_views(entries@) =~= pat_views(pre) + seq![s@]);
        }
    } else {
        proof {
            assert(pat_views(entries@) =~= pat_views(old(entries)@) + Seq::<Seq<char>>::empty());
        }
    }
}

/// Assembles the matching tables from the raw emoji data: per emoji a base
/// string, its variant strings and its alias names. The result holds exactly
/// the non-empty base and variant strings as entries, in order, and one
/// alias pair per name.
pub fn assemble_index(
    base: &Vec<String>,
    variants: &Vec<Vec<String>>,
    names: &Vec<Vec<String>>,
) -> (index: EmojiIndex)
    requires
        base@.len() == variants@.len(),
        base@.len() == names@.len(),
    ensures
        index.wf(),
        index@.entries == spec_entries(base.deep_view(), variants.deep_view(), 0),
        index@.shortcodes == spec_aliases(base.deep_view(), names.deep_view(), 0),
{
    let ghost bv = base.deep_view();
    let ghost vv = variants.deep_view();
    let ghost nv = names.deep_view();
    let n = base.len();
    let mut entries: Vec<EmojiPattern> = Vec::new();
    let mut shortcodes: Vec<ShortcodeAlias> = Vec::new();
    let mut i: usize = 0;
    proof {
        assert(Seq::<Seq<char>>::empty() + spec_entries(bv, vv, 0) =~= spec_entries(bv, vv, 0));
        assert(Seq::<(Seq<char>, Seq<char>)>::empty() + spec_aliases(bv, nv, 0) =~= spec_aliases(
            bv,
            nv,
            0,
        ));
        assert(pat_views(entries@) =~= Seq::<Seq<char>>::empty());
        assert(alias_views(shortcodes@) =~= Seq::<(Seq<char>, Seq<char>)>::empty());
    }
    while i < n
        invariant
            n == base@.len(),
            base@.len() == variants@.len(),
            base@.len() == names@.len(),
            bv == base.deep_view(),
            vv == variants.deep_view(),
            nv == names.deep_view(),
            i <= n,
            pat_views(entries@) + spec_entries(bv, vv, i as int) =~= spec_entries(bv, vv, 0),
            alias_views(shortcodes@) + spec_aliases(bv, nv, i as int) =~= spec_aliases(bv, nv, 0),
        decreases n - i,
    {
        proof {
            assert(bv.len() == base@.len() && vv.len() == variants@.len() && nv.len()
                == names@.len());
            assert(bv[i as int] == base@[i as int]@);
            assert(vv[i as int] == variants@[i as int].deep_view());
            assert(nv[i as int] == names@[i as int].deep_view());
        }
        let ghost pre_pat = pat_views(entries@);
        // The entries this emoji contributes: base string, then variants.
        push_entry(&mut entries, &base[i]);
        let ghost after_base = pat_views(entries@);
        let row = &variants[i];
        let ghost rv = vv[i as int];
        let m = row.len();
        let mut j: usize = 0;
        proof {
            assert(rv.len() == row@.len());
            assert(rv.skip(0) =~= rv);
        }
        while j < m
            invariant
                m == row@.len(),
                rv == row.deep_view(),
                rv.len() == m,
                j <= m,
                pat_views(entries@) + nonempty_of(rv.skip(j as int)) =~= after_base
                    + nonempty_of(rv),
            decreases m - j,
        {
            proof {
                assert(rv.skip(j as int)[0] == rv[j as int]);
                assert(rv.skip(j as int).drop_first() =~= rv.skip(j as int + 1));
                assert(rv[j as int] == row@[j as int]@);
            }
            let ghost pre = pat_views(entries@);
            push_entry(&mut entries, &row[j]);
            proof {
                if rv[j as int].len() >= 1 {
                    assert(pat_views(entries@) + nonempty_of(rv.skip(j as int + 1)) =~= pre + (seq![
                        rv[j as int],
                    ] + nonempty_of(rv.skip(j as int + 1))));
                } else {
                    assert(pat_views(entries@) =~= pre);
                }
            }
            j += 1;
        }
        proof {
            assert(nonempty_of(rv.skip(m as int)) =~= Seq::<Seq<char>>::empty());
            assert(pat_views(entries@) =~= after_base + nonempty_of(rv));
            assert(pat_views(entries@) =~= pre_pat + entries_of_emoji(bv[i as int], rv));
            assert(spec_entries(bv, vv, i as int) == entries_of_emoji(bv[i as int], rv)
                + spec_entries(bv, vv, i as int + 1));
            assert(pat_views(entries@) + spec_entries(bv, vv, i as int + 1) =~= pre_pat + (
            entries_of_emoji(bv[i as int], rv) + spec_entries(bv, vv, i as int + 1)));
        }
        // The alias pairs this emoji contributes: one per shortcode name.
        let ghost pre_al = alias_views(shortcodes@);
        let nrow = &names[i];
        let ghost sv = nv[i as int];
        let nm = nrow.len();
        let mut k: usize = 0;
        proof {
            assert(sv.len() == nrow@.len());
            assert(sv.skip(0) =~= sv);
        }
        while k < nm
            invariant
                nm == nrow@.len(),
                sv == nrow.deep_view(),
                sv.len() == nm,
                k <= nm,
                bv == base.deep_view(),
                i < base@.len(),
                bv[i as int] == base@[i as int]@,
                alias_views(shortcodes@) + pairs_of(bv[i as int], sv.skip(k as int)) =~= pre_al
                    + pairs_of(bv[i as int], sv),
            decreases nm - k,
        {
            proof {
                assert(sv.skip(k as int)[0] == sv[k as int]);
                assert(sv.skip(k as int).drop_first() =~= sv.skip(k as int + 1));
                assert(sv[k as int] == nrow@[k as int]@);
            }
            let ghost pre = alias_views(shortcodes@);
            let alias = ShortcodeAlias {
                name: crate::chars::str_to_chars(nrow[k].as_str()),
                emoji: crate::chars::str_to_chars(base[i].as_str()),
            };
            shortcodes.push(alias);
            proof {
                assert(alias_views(shortcodes@) =~= pre.push((sv[k as int], bv[i as int])));
                assert(alias_views(shortcodes@) + pairs_of(bv[i as int], sv.skip(k as int + 1))
                    =~= pre + (seq![(sv[k as int], bv[i as int])] + pairs_of(
                    bv[i as int],
                    sv.skip(k as int + 1),
                )));
            }
            k += 1;
        }
        proof {
            assert(pairs_of(bv[i as int], sv.skip(nm as int)) =~= Seq::<(Seq<char>, Seq<char>)>::empty());
            assert(alias_views(shortcodes@) =~= pre_al + pairs_of(bv[i as int], sv));
            assert(spec_aliases(bv, nv, i as int) == pairs_of(bv[i as int], sv) + spec_aliases(
                bv,
                nv,
                i as int + 1,
            ));
            assert(alias_views(shortcodes@) + spec_aliases(bv, nv, i as int + 1) =~= pre_al + (
            pairs_of(bv[i as int], sv) + spec_aliases(bv, nv, i as int + 1)));
        }
        i += 1;
    }
    proof {
        assert(spec_entries(bv, vv, n as int) =~= Seq::<Seq<char>>::empty());
        assert(spec_aliases(bv, nv, n as int) =~= Seq::<(Seq<char>, Seq<char>)>::empty());
        assert(pat_views(entries@) =~= spec_entries(bv, vv, 0));
        assert(alias_views(shortcodes@) =~= spec_aliases(bv, nv, 0));
        lemma_spec_entries_nonempty(bv, vv, 0);
    }
    EmojiIndex { entries, shortcodes }
}

// ---------------------------------------------------------------------------
// Building from the emoji data.
// ---------------------------------------------------------------------------

/// Gathers the present skin-tone variants of one canonical string, in tone
/// order.
fn skin_tone_variants_of(e: &String) -> (r: Vec<String>)
    ensures
        r.deep_view() == tone_list(e@, 0),
{
    let mut out: Vec<String> = Vec::new();
    let mut t: u8 = 0;
    proof {
        assert(out.deep_view() =~= Seq::<Seq<char>>::empty());
        assert(Seq::<Seq<char>>::empty() + tone_list(e@, 0) =~= tone_list(e@, 0));
    }
    while t < 5
        invariant
            t <= 5,
            out.deep_view() + tone_list(e@, t as int) =~= tone_list(e@, 0),
        decreases 5 - t,
    {
        let ghost pre = out.deep_view();
        match skin_tone_variant(e.as_str(), t) {
            Some(v) => {
                let ghost vs = v@;
                out.push(v);
                proof {
                    assert(out.deep_view() =~= pre.push(vs));
                    assert(tone_list(e@, t as int) == seq![vs] + tone_list(e@, t as int + 1));
                    assert(out.deep_view() + tone_list(e@, t as int + 1) =~= pre + (seq![vs]
                        + tone_list(e@, t as int + 1)));
                }
            },
            None => {
                proof {
                    assert(tone_list(e@, t as int) == tone_list(e@, t as int + 1));
                }
            },
        }
        t += 1;
    }
    proof {
        assert(tone_list(e@, 5) =~= Seq::<Seq<char>>::empty());
        assert(out.deep_view() =~= tone_list(e@, 0));
    }
    out
}

/// Builds the emoji matching tables: the canonical emoji strings, their
/// skin-tone variants, and the shortcode index. The tokenizer and the emoji
/// scanner take the result as their table of known emoji.
///
/// The contract pins the structure: the result is the index the emoji data
/// determines for some base list of canonical strings, led by the
/// placeholder character, so the placeholder always resolves as an emoji.
/// Two builds agree wherever the crate's emoji list does; the list itself
/// comes from a call with no argument and cannot be named.
pub fn build_regex() -> (index: EmojiIndex)
    ensures
        index.wf(),
        index@.entries.len() >= 1,
        index@.entries.contains(seq![PLACEHOLDER_EMOJI]),
        exists|base: Seq<Seq<char>>|
            {
                &&& base.len() >= 1
                &&& base[0] == seq![PLACEHOLDER_EMOJI]
                &&& #[trigger] index_from(base) == index@
            },
{
    let mut base: Vec<String> = Vec::new();
    let mut variants: Vec<Vec<String>> = Vec::new();
    let mut names: Vec<Vec<String>> = Vec::new();

    // The placeholder leads the table: text the scanner produced must
    // re-tokenize its placeholders as emoji whatever the list holds.
    let mut p = String::new();
    crate::chars::push_char(&mut p, PLACEHOLDER_EMOJI);
    proof {
        assert(p@ =~= seq![PLACEHOLDER_EMOJI]);
    }
    let pv = skin_tone_variants_of(&p);
    let pn = emoji_shortcodes(p.as_str());
    let ghost p_view = p@;
    variants.push(pv);
    names.push(pn);
    base.push(p);
    proof {
        assert(base.deep_view() =~= seq![p_view]);
        assert(base.deep_view()[0] == seq![PLACEHOLDER_EMOJI]);
        assert(variants.deep_view()[0] == tone_list(base.deep_view()[0], 0));
        assert(names.deep_view()[0] == shortcodes_of(base.deep_view()[0]));
    }

    let all = all_emoji_strings();
    let mut i: usize = 0;
    while i < all.len()
        invariant
            base@.len() == variants@.len(),
            base@.len() == names@.len(),
            base@.len() >= 1,
            base.deep_view()[0] == seq![PLACEHOLDER_EMOJI],
            forall|k: int|
                0 <= k < base@.len() ==> #[trigger] variants.deep_view()[k] == tone_list(
                    base.deep_view()[k],
                    0,
                ),
            forall|k: int|
                0 <= k < base@.len() ==> #[trigger] names.deep_view()[k] == shortcodes_of(
                    base.deep_view()[k],
                ),
        decreases all@.len() - i,
    {
        let e = &all[i];
        let ev = skin_tone_variants_of(e);
        let en = emoji_shortcodes(e.as_str());
        let ghost e_view = e@;
        let ghost pre_b = base.deep_view();
        let ghost pre_v = variants.deep_view();
        let ghost pre_n = names.deep_view();
        variants.push(ev);
        names.push(en);
        base.push(e.clone());
        proof {
            assert(base.deep_view() =~= pre_b.push(e_view));
            assert(variants.deep_view() =~= pre_v.push(tone_list(e_view, 0)));
            assert(names.deep_view() =~= pre_n.push(shortcodes_of(e_view)));
            assert forall|k: int|
                0 <= k < base@.len() implies #[trigger] variants.deep_view()[k] == tone_list(
                base.deep_view()[k],
                0,
            ) by {
                if k < pre_b.len() {
                    assert(pre_v[k] == tone_list(pre_b[k], 0));
                }
            }
            assert forall|k: int|
                0 <= k < base@.len() implies #[trigger] names.deep_view()[k] == shortcodes_of(
                base.deep_view()[k],
            ) by {
                if k < pre_b.len() {
                    assert(pre_n[k] == shortcodes_of(pre_b[k]));
                }
            }
        }
        i += 1;
    }

    let index = assemble_index(&base, &variants, &names);
    proof {
        let bw = base.deep_view();
        assert(variants.deep_view() =~= Seq::new(bw.len(), |k: int| tone_list(bw[k], 0)));
        assert(names.deep_view() =~= Seq::new(bw.len(), |k: int| shortcodes_of(bw[k])));
        assert(index_from(bw) == index@);
        lemma_spec_entries_first(bw, variants.deep_view());
        assert(index@.entries[0] == seq![PLACEHOLDER_EMOJI]);
        assert(index@.entries.contains(seq![PLACEHOLDER_EMOJI]));
    }
    index
}

} // verus!
