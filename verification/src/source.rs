//! Emoji sources: where an emoji's bitmap is to be found. A source and a
//! resolved emoji give a resolution path — a local file name built from the
//! emoji's codepoints, or a CDN URL — without re-parsing any text.

use vstd::prelude::*;

use crate::token::{EmojiType, EmojiTypeModel};

verus! {

/// The zero-width joiner: an emoji holding one keeps its variation selectors
/// in its file name.
pub const ZERO_WIDTH_JOINER: char = '\u{200d}';

/// The variation selector stripped from unjoined emoji file names.
pub const VARIATION_SELECTOR_16: char = '\u{fe0f}';

/// The largest magnitude of a well-formed emoji pixel shift.
pub const MAX_SHIFT: i64 = 1099511627776;

/// Where one emoji's bitmap can be resolved from.
#[derive(Debug, Clone, PartialEq)]
pub enum EmojiPath {
    /// A file under a local directory.
    Local(String),
    /// A URL; `discord` marks the platform CDN as the origin.
    External { path: String, discord: bool },
    /// Nothing to resolve.
    Absent,
}

/// The mathematical value of an [`EmojiPath`].
pub enum EmojiPathModel {
    Local(Seq<char>),
    External { path: Seq<char>, discord: bool },
    Absent,
}

impl DeepView for EmojiPath {
    type V = EmojiPathModel;

    open spec fn deep_view(&self) -> EmojiPathModel {
        match self {
            EmojiPath::Local(p) => EmojiPathModel::Local(p@),
            EmojiPath::External { path, discord } => EmojiPathModel::External {
                path: path@,
                discord: *discord,
            },
            EmojiPath::Absent => EmojiPathModel::Absent,
        }
    }
}

/// A provider of emoji bitmaps: a local directory, or one of the styles a
/// public emoji CDN serves.
#[derive(Debug, PartialEq, Clone)]
pub enum EmojiSource {
    Dir(String),
    Twitter,
    Apple,
    Google,
    Microsoft,
    Samsung,
    WhatsApp,
    JoyPixels,
    OpenMoji,
    Emojidex,
    Messenger,
    Mozilla,
    Lg,
    Htc,
    Twemoji,
}

/// The style name a source asks the emoji CDN for.
pub open spec fn spec_style(src: &EmojiSource) -> Seq<char> {
    match src {
        EmojiSource::Twitter => "twitter"@,
        EmojiSource::Twemoji => "twemoji"@,
        EmojiSource::Apple => "apple"@,
        EmojiSource::Google => "google"@,
        EmojiSource::Microsoft => "microsoft"@,
        EmojiSource::Samsung => "samsung"@,
        EmojiSource::WhatsApp => "whatsapp"@,
        EmojiSource::JoyPixels => "joypixels"@,
        EmojiSource::OpenMoji => "openmoji"@,
        EmojiSource::Emojidex => "emojidex"@,
        EmojiSource::Messenger => "messenger"@,
        EmojiSource::Mozilla => "mozilla"@,
        EmojiSource::Lg => "lg"@,
        EmojiSource::Htc => "htc"@,
        EmojiSource::Dir(_) => "local"@,
    }
}

// ---------------------------------------------------------------------------
// Number formatting for file names and URLs.
// ---------------------------------------------------------------------------

/// The lower-case hexadecimal digit for `d`.
pub open spec fn hex_digit(d: int) -> char {
    if d == 0 {
        '0'
    } else if d == 1 {
        '1'
    } else if d == 2 {
        '2'
    } else if d == 3 {
        '3'
    } else if d == 4 {
        '4'
    } else if d == 5 {
        '5'
    } else if d == 6 {
        '6'
    } else if d == 7 {
        '7'
    } else if d == 8 {
        '8'
    } else if d == 9 {
        '9'
    } else if d == 10 {
        'a'
    } else if d == 11 {
        'b'
    } else if d == 12 {
        'c'
    } else if d == 13 {
        'd'
    } else if d == 14 {
        'e'
    } else {
        'f'
    }
}

/// `n` in lower-case hexadecimal, most significant digit first, no leading
/// zeros.
pub open spec fn hex_of(n: int) -> Seq<char>
    decreases n,
{
    if n < 16 {
        seq![hex_digit(n)]
    } else {
        hex_of(n / 16) + seq![hex_digit(n % 16)]
    }
}

/// The decimal digit character for `d`.
pub open spec fn dec_digit(d: int) -> char {
    if d == 0 {
        '0'
    } else if d == 1 {
        '1'
    } else if d == 2 {
        '2'
    } else if d == 3 {
        '3'
    } else if d == 4 {
        '4'
    } else if d == 5 {
        '5'
    } else if d == 6 {
        '6'
    } else if d == 7 {
        '7'
    } else if d == 8 {
        '8'
    } else {
        '9'
    }
}

/// `n` in decimal, most significant digit first, no leading zeros.
pub open spec fn dec_of(n: int) -> Seq<char>
    decreases n,
{
    if n < 10 {
        seq![dec_digit(n)]
    } else {
        dec_of(n / 10) + seq![dec_digit(n % 10)]
    }
}

fn hex_digit_exec(d: u32) -> (c: char)
    requires
        d < 16,
    ensures
        c == hex_digit(d as int),
{
    match d {
        0 => '0',
        1 => '1',
        2 => '2',
        3 => '3',
        4 => '4',
        5 => '5',
        6 => '6',
        7 => '7',
        8 => '8',
        9 => '9',
        10 => 'a',
        11 => 'b',
        12 => 'c',
        13 => 'd',
        14 => 'e',
        _ => 'f',
    }
}

fn dec_digit_exec(d: u64) -> (c: char)
    requires
        d < 10,
    ensures
        c == dec_digit(d as int),
{
    match d {
        0 => '0',
        1 => '1',
        2 => '2',
        3 => '3',
        4 => '4',
        5 => '5',
        6 => '6',
        7 => '7',
        8 => '8',
        _ => '9',
    }
}

/// Appends `n` in lower-case hexadecimal to `s`.
fn push_hex(s: &mut String, n: u32)
    ensures
        final(s)@ == old(s)@ + hex_of(n as int),
    decreases n,
{
    if n < 16 {
        crate::chars::push_char(s, hex_digit_exec(n));
        proof {
            assert(old(s)@.push(hex_digit(n as int)) =~= old(s)@ + hex_of(n as int));
        }
    } else {
        push_hex(s, n / 16);
        crate::chars::push_char(s, hex_digit_exec(n % 16));
        proof {
            assert((old(s)@ + hex_of(n as int / 16)).push(hex_digit(n as int % 16)) =~= old(s)@ + (
            hex_of(n as int / 16) + seq![hex_digit(n as int % 16)]));
        }
    }
}

/// Appends `n` in decimal to `s`.
fn push_dec(s: &mut String, n: u64)
    ensures
        final(s)@ == old(s)@ + dec_of(n as int),
    decreases n,
{
    if n < 10 {
        crate::chars::push_char(s, dec_digit_exec(n));
        proof {
            assert(old(s)@.push(dec_digit(n as int)) =~= old(s)@ + dec_of(n as int));
        }
    } else {
        push_dec(s, n / 10);
        crate::chars::push_char(s, dec_digit_exec(n % 10));
        proof {
            assert((old(s)@ + dec_of(n as int / 10)).push(dec_digit(n as int % 10)) =~= old(s)@ + (
            dec_of(n as int / 10) + seq![dec_digit(n as int % 10)]));
        }
    }
}

// ---------------------------------------------------------------------------
// Emoji file names.
// ---------------------------------------------------------------------------

pub open spec fn contains_char(s: Seq<char>, c: char) -> bool {
    exists|i: int| 0 <= i < s.len() && s[i] == c
}

/// `s` with every occurrence of `c` removed.
pub open spec fn strip_char(s: Seq<char>, c: char) -> Seq<char>
    decreases s.len(),
{
    if s.len() == 0 {
        Seq::empty()
    } else if s[0] == c {
        strip_char(s.drop_first(), c)
    } else {
        seq![s[0]] + strip_char(s.drop_first(), c)
    }
}

/// The codepoints of `s` in hexadecimal, joined by `-`.
pub open spec fn hex_join(s: Seq<char>) -> Seq<char>
    decreases s.len(),
{
    if s.len() == 0 {
        Seq::empty()
    } else if s.len() == 1 {
        hex_of(s[0] as int)
    } else {
        hex_join(s.drop_last()) + seq!['-'] + hex_of(s.last() as int)
    }
}

/// The file name an emoji's bitmap is stored under: its codepoints in
/// hexadecimal joined by `-`, and the `.png` suffix. Variation selectors are
/// dropped first unless the emoji holds a zero-width joiner.
pub open spec fn spec_emoji_file_name(emoji: Seq<char>) -> Seq<char> {
    let base = if contains_char(emoji, ZERO_WIDTH_JOINER) {
        emoji
    } else {
        strip_char(emoji, VARIATION_SELECTOR_16)
    };
    hex_join(base) + ".png"@
}

/// Whether `v` holds `c`.
fn contains_char_exec(v: &Vec<char>, c: char) -> (r: bool)
    ensures
        r == contains_char(v@, c),
{
    let mut i: usize = 0;
    while i < v.len()
        invariant
            i <= v@.len(),
            forall|k: int| 0 <= k < i ==> v@[k] != c,
        decreases v@.len() - i,
    {
        if v[i] == c {
            return true;
        }
        i += 1;
    }
    false
}

/// `v` with every occurrence of `c` removed.
fn strip_char_exec(v: &Vec<char>, c: char) -> (r: Vec<char>)
    ensures
        r@ == strip_char(v@, c),
{
    let mut out: Vec<char> = Vec::new();
    let mut i: usize = 0;
    proof {
        assert(v@.skip(0) =~= v@);
        assert(Seq::<char>::empty() + strip_char(v@, c) =~= strip_char(v@, c));
    }
    while i < v.len()
        invariant
            i <= v@.len(),
            strip_char(v@, c) == out@ + strip_char(v@.skip(i as int), c),
        decreases v@.len() - i,
    {
        proof {
            assert(v@.skip(i as int)[0] == v@[i as int]);
            assert(v@.skip(i as int).drop_first() =~= v@.skip(i as int + 1));
        }
        if v[i] != c {
            let ghost pre = out@;
            out.push(v[i]);
            proof {
                assert(out@ =~= pre.push(v@[i as int]));
                assert(out@ + strip_char(v@.skip(i as int + 1), c) =~= pre + (seq![v@[i as int]]
                    + strip_char(v@.skip(i as int + 1), c)));
            }
        }
        i += 1;
    }
    proof {
        assert(v@.skip(v@.len() as int) =~= Seq::<char>::empty());
        assert(strip_char(Seq::<char>::empty(), c) == Seq::<char>::empty());
        assert(out@ =~= strip_char(v@, c));
    }
    out
}

impl EmojiSource {
    /// The file name an emoji's bitmap is stored under, as
    /// [`spec_emoji_file_name`] describes.
    pub fn emoji_file_name(emoji: &str) -> (r: String)
        ensures
            r@ == spec_emoji_file_name(emoji@),
    {
        let chars = crate::chars::str_to_chars(emoji);
        let base = if contains_char_exec(&chars, ZERO_WIDTH_JOINER) {
            chars
        } else {
            strip_char_exec(&chars, VARIATION_SELECTOR_16)
        };
        let mut s = String::new();
        let mut i: usize = 0;
        while i < base.len()
            invariant
                i <= base@.len(),
                s@ == hex_join(base@.take(i as int)),
            decreases base@.len() - i,
        {
            if i > 0 {
                crate::chars::push_char(&mut s, '-');
            }
            let c = base[i];
            let cu: u32 = crate::chars::char_code(c);
            push_hex(&mut s, cu);
            proof {
                assert(cu as int == base@[i as int] as int);
                assert(hex_of(cu as int) == hex_of(base@[i as int] as int));
                assert(base@.take(i as int + 1).drop_last() =~= base@.take(i as int));
                assert(base@.take(i as int + 1).last() == base@[i as int]);
                if i == 0 {
                    assert(base@.take(1).len() == 1);
                    assert(hex_join(base@.take(1)) =~= hex_of(base@[0] as int));
                    assert(hex_join(Seq::<char>::empty()) == Seq::<char>::empty());
                    assert(s@ =~= hex_join(base@.take(1)));
                } else {
                    assert(s@ =~= (hex_join(base@.take(i as int)) + seq!['-']) + hex_of(
                        base@[i as int] as int,
                    ));
                    assert(hex_join(base@.take(i as int + 1)) =~= hex_join(base@.take(i as int))
                        + seq!['-'] + hex_of(base@[i as int] as int));
                }
            }
            i += 1;
        }
        proof {
            assert(base@.take(base@.len() as int) =~= base@);
        }
        s.append(".png");
        s
    }

    /// The style name this source asks the emoji CDN for.
    pub fn style(&self) -> (r: &'static str)
        ensures
            r@ == spec_style(self),
    {
        match self {
            EmojiSource::Twitter => "twitter",
            EmojiSource::Twemoji => "twemoji",
            EmojiSource::Apple => "apple",
            EmojiSource::Google => "google",
            EmojiSource::Microsoft => "microsoft",
            EmojiSource::Samsung => "samsung",
            EmojiSource::WhatsApp => "whatsapp",
            EmojiSource::JoyPixels => "joypixels",
            EmojiSource::OpenMoji => "openmoji",
            EmojiSource::Emojidex => "emojidex",
            EmojiSource::Mozilla => "mozilla",
            EmojiSource::Messenger => "messenger",
            EmojiSource::Lg => "lg",
            EmojiSource::Htc => "htc",
            EmojiSource::Dir(_) => "local",
        }
    }
}

/// The resolution path a source gives one emoji, with `discord` saying
/// whether external-id emoji may be fetched from the platform CDN.
pub open spec fn spec_build_path(
    src: &EmojiSource,
    emoji: EmojiTypeModel,
    discord: bool,
) -> EmojiPathModel {
    match emoji {
        EmojiTypeModel::Regular(e) => match src {
            EmojiSource::Dir(dir) => EmojiPathModel::Local(
                dir@ + seq!['/'] + spec_emoji_file_name(e),
            ),
            _ => EmojiPathModel::External {
                path: "https://emojicdn.elk.sh"@ + seq!['/'] + e + "?style="@ + spec_style(src),
                discord: false,
            },
        },
        EmojiTypeModel::Discord(id) => if discord {
            EmojiPathModel::External {
                path: "https://cdn.discordapp.com/emojis"@ + seq!['/'] + dec_of(id as int)
                    + ".png"@,
                discord: true,
            }
        } else {
            EmojiPathModel::Absent
        },
    }
}

impl EmojiSource {
    /// Builds the resolution path for one emoji, as [`spec_build_path`]
    /// describes.
    pub fn build_path(&self, emoji: &EmojiType, discord: bool) -> (r: EmojiPath)
        ensures
            r.deep_view() == spec_build_path(self, emoji.deep_view(), discord),
    {
        match emoji {
            EmojiType::Regular(e) => {
                match self {
                    EmojiSource::Dir(dir) => {
                        let mut s = dir.clone();
                        crate::chars::push_char(&mut s, '/');
                        let name = Self::emoji_file_name(e.as_str());
                        s.append(name.as_str());
                        proof {
                            assert(dir@.push('/') =~= dir@ + seq!['/']);
                        }
                        EmojiPath::Local(s)
                    },
                    _ => {
                        let mut s = String::new();
                        s.append("https://emojicdn.elk.sh");
                        crate::chars::push_char(&mut s, '/');
                        s.append(e.as_str());
                        s.append("?style=");
                        s.append(self.style());
                        proof {
                            assert(("https://emojicdn.elk.sh"@).push('/')
                                =~= "https://emojicdn.elk.sh"@ + seq!['/']);
                        }
                        EmojiPath::External { path: s, discord: false }
                    },
                }
            },
            EmojiType::Discord(id) => {
                if discord {
                    let mut s = String::new();
                    s.append("https://cdn.discordapp.com/emojis");
                    crate::chars::push_char(&mut s, '/');
                    push_dec(&mut s, *id);
                    s.append(".png");
                    proof {
                        assert(("https://cdn.discordapp.com/emojis"@).push('/')
                            =~= "https://cdn.discordapp.com/emojis"@ + seq!['/']);
                    }
                    EmojiPath::External { path: s, discord: true }
                } else {
                    EmojiPath::Absent
                }
            },
        }
    }
}

/// One emoji waiting for its bitmap: its resolution path, the square pixel
/// size the bitmap should come back in, and the index that matches the
/// result to its place in the layout.
pub struct UnresolvedEmoji {
    pub path: EmojiPath,
    pub size: u32,
    pub id: usize,
}

// ---------------------------------------------------------------------------
// Emoji options.
// ---------------------------------------------------------------------------

/// How emoji are parsed and rendered for one font set: the relative scale of
/// the placeholder glyph (in thousandths), a pixel shift for composited
/// bitmaps, which notations are parsed, and which source serves bitmaps.
#[derive(Debug, Clone)]
pub struct EmojiOptions {
    pub scale_milli: u32,
    pub shift_x: i64,
    pub shift_y: i64,
    pub parse_shortcodes: bool,
    pub parse_discord_emojis: bool,
    pub source: EmojiSource,
}

impl EmojiOptions {
    pub open spec fn wf(&self) -> bool {
        &&& self.scale_milli <= crate::metrics::MAX_EMOJI_SCALE_MILLI
        &&& -MAX_SHIFT <= self.shift_x <= MAX_SHIFT
        &&& -MAX_SHIFT <= self.shift_y <= MAX_SHIFT
    }

    /// The default options: emoji at the text's own scale, no shift,
    /// shortcodes parsed, external ids not, bitmaps from the Twitter style.
    pub open spec fn spec_default() -> EmojiOptions {
        EmojiOptions {
            scale_milli: 1000,
            shift_x: 0,
            shift_y: 0,
            parse_shortcodes: true,
            parse_discord_emojis: false,
            source: EmojiSource::Twitter,
        }
    }

    /// The default options with external-id parsing enabled.
    pub fn discord() -> (r: EmojiOptions)
        ensures
            r == (EmojiOptions { parse_discord_emojis: true, ..Self::spec_default() }),
    {
        EmojiOptions {
            scale_milli: 1000,
            shift_x: 0,
            shift_y: 0,
            parse_shortcodes: true,
            parse_discord_emojis: true,
            source: EmojiSource::Twitter,
        }
    }

    /// The default options with bitmaps from the given source.
    pub fn from_source(source: EmojiSource) -> (r: EmojiOptions)
        ensures
            r == (EmojiOptions { source, ..Self::spec_default() }),
    {
        EmojiOptions {
            scale_milli: 1000,
            shift_x: 0,
            shift_y: 0,
            parse_shortcodes: true,
            parse_discord_emojis: false,
            source,
        }
    }

    /// The default options with bitmaps from a local directory.
    pub fn dir(dir: String) -> (r: EmojiOptions)
        ensures
            r == (EmojiOptions { source: EmojiSource::Dir(dir), ..Self::spec_default() }),
    {
        Self::from_source(EmojiSource::Dir(dir))
    }

    /// The resolution path this option set gives one emoji.
    pub fn path_for(&self, emoji: &EmojiType) -> (r: EmojiPath)
        ensures
            r.deep_view() == spec_build_path(
                &self.source,
                emoji.deep_view(),
                self.parse_discord_emojis,
            ),
    {
        self.source.build_path(emoji, self.parse_discord_emojis)
    }
}

impl Default for EmojiOptions {
    fn default() -> (r: EmojiOptions)
        ensures
            r == Self::spec_default(),
    {
        EmojiOptions {
            scale_milli: 1000,
            shift_x: 0,
            shift_y: 0,
            parse_shortcodes: true,
            parse_discord_emojis: false,
            source: EmojiSource::Twitter,
        }
    }
}

} // verus!
