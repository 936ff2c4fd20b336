//! Tokenizer and emoji-scanner behaviour against the real emoji tables.

use imagetext::emoji_parse::{clean_emojis, parse_out_emojis};
use imagetext::registry::build_regex;
use imagetext::token::{tokenize, tokens_string, EmojiType, Token};

fn regular(s: &str) -> EmojiType {
    EmojiType::Regular(s.to_string())
}

fn by_unicode(s: &str) -> EmojiType {
    regular(emojis::get(s).unwrap().as_str())
}

fn by_shortcode(s: &str) -> EmojiType {
    regular(emojis::get_by_shortcode(s).unwrap().as_str())
}

#[test]
fn parse_out_emojis_test() {
    let index = build_regex();
    let text = "h😨😰 my 😓 n🐢ame i☕s 会のすべ aての構成員 nathan and i drin😳🥵 boop coop, the quick brown fox jumps over the lazy dog";
    let (s, found) = parse_out_emojis(text, false, false, &index);

    assert_eq!(s, "h😀😀 my 😀 n😀ame i😀s 会のすべ aての構成員 nathan and i drin😀😀 boop coop, the quick brown fox jumps over the lazy dog");
    assert_eq!(
        found,
        vec![
            by_unicode("😨"),
            by_unicode("😰"),
            by_unicode("😓"),
            by_unicode("🐢"),
            by_unicode("☕"),
            by_unicode("😳"),
            by_unicode("🥵"),
        ]
    );

    // shortcode test
    let text = "hello :smile: soup :pensive:";
    let (s, found) = parse_out_emojis(text, true, false, &index);

    assert_eq!(s, "hello 😀 soup 😀");

    assert_eq!(found, vec![by_shortcode("smile"), by_shortcode("pensive")]);

    // discord test
    let text = "hello <a:smile:123456789012345678> soup :sob: <:soup:123456999012345678>";

    let (s, found) = parse_out_emojis(text, true, true, &index);

    assert_eq!(s, "hello 😀 soup 😀 😀");

    assert_eq!(
        found,
        vec![
            EmojiType::Discord(123456789012345678),
            by_shortcode("sob"),
            EmojiType::Discord(123456999012345678),
        ]
    );
}

#[test]
fn test_text_token_iterator() {
    let text = "<:notlikecat:739615190525542482>\nsssss:smile:ssssss😈ssssssss<:notlikecat:739615190525542482>sssssssssssssssssssssssss😈ssssssss<:notlikecat:739615190525542482>ssss<:notlikecat:739615190525542482>               rogramming language is an A <:notlikecat:739615190525542482><:notlikecat:739615190525542482> rogramming language is an A <:notlikecat:739615190525542482><:notlikecat:739615190525542482> rogramming language is an A <:notlikecat:739615190525542482><:notlikecat:739615190525542482> rogramming language is an ";

    let index = build_regex();
    let _tokens: Vec<Token> = tokenize(text, true, true, &index);

    let start = std::time::Instant::now();
    let _tokens: Vec<Token> = tokenize(text, true, true, &index);

    println!("Time: {:?}", start.elapsed());
}

#[test]
fn tokenize_shortcode_scenario() {
    let index = build_regex();
    let tokens = tokenize("hello :smile: soup :pensive:", true, false, &index);
    assert_eq!(
        tokens,
        vec![
            Token::Word("hello".to_string()),
            Token::WhiteSpace,
            Token::Emoji(by_shortcode("smile")),
            Token::WhiteSpace,
            Token::Word("soup".to_string()),
            Token::WhiteSpace,
            Token::Emoji(by_shortcode("pensive")),
        ]
    );
}

#[test]
fn tokenize_external_id_scenario() {
    let index = build_regex();
    let tokens = tokenize(
        "hello <a:smile:123456789012345678> soup :sob: <:soup:123456999012345678>",
        true,
        true,
        &index,
    );
    let found: Vec<Token> = tokens
        .into_iter()
        .filter(|t| matches!(t, Token::Emoji(_)))
        .collect();
    assert_eq!(
        found,
        vec![
            Token::Emoji(EmojiType::Discord(123456789012345678)),
            Token::Emoji(by_shortcode("sob")),
            Token::Emoji(EmojiType::Discord(123456999012345678)),
        ]
    );
}

#[test]
fn tokenize_round_trip_plain_text() {
    let index = build_regex();
    let text = "hello world this is plain text with 😈 emoji";
    let tokens = tokenize(text, false, false, &index);
    assert_eq!(tokens_string(&tokens), text);
}

#[test]
fn tokenize_round_trip_disabled_flags_keep_markup() {
    let index = build_regex();
    let text = "a :smile: b <a:smile:123456789012345678> c";
    let tokens = tokenize(text, false, false, &index);
    assert_eq!(tokens_string(&tokens), text);
}

#[test]
fn unresolved_shortcode_stays_literal() {
    let index = build_regex();
    let tokens = tokenize(":defnotarealshortcode:", true, true, &index);
    assert_eq!(tokens, vec![Token::Word(":defnotarealshortcode:".to_string())]);
}

#[test]
fn oversized_external_id_stays_literal() {
    let index = build_regex();
    // 22 nines do not fit a 64-bit id, so the marker is not resolved.
    let text = "<a:name:9999999999999999999999>";
    let tokens = tokenize(text, true, true, &index);
    assert_eq!(tokens, vec![Token::Word(text.to_string())]);
}

#[test]
fn skin_tone_variant_matches_whole() {
    let index = build_regex();
    let tokens = tokenize("👍🏽", false, false, &index);
    assert_eq!(tokens, vec![Token::Emoji(regular("👍🏽"))]);
}

#[test]
fn variation_selector_dropped_from_words() {
    let index = build_regex();
    let tokens = tokenize("a\u{fe0f}b", false, false, &index);
    assert_eq!(tokens, vec![Token::Word("ab".to_string())]);
}

#[test]
fn clean_emojis_replaces_all_notations() {
    let index = build_regex();
    let cleaned = clean_emojis("x :smile: y <a:smile:123456789012345678> z 😈", &index);
    assert_eq!(cleaned, "x 😀 y 😀 z 😀");
}

#[test]
fn emoji_coupling_counts_agree() {
    let index = build_regex();
    let text = "a 😈 b :smile: c <a:smile:123456789012345678> d";
    let (parsed, found) = parse_out_emojis(text, true, true, &index);
    let placeholders = parsed.chars().filter(|c| *c == '😀').count();
    assert_eq!(placeholders, found.len());
    let tokens = tokenize(text, true, true, &index);
    let emoji_tokens = tokens
        .iter()
        .filter(|t| matches!(t, Token::Emoji(_)))
        .count();
    assert_eq!(emoji_tokens, found.len());
}

#[test]
fn whitespace_tokens_are_split_per_character() {
    let index = build_regex();
    let tokens = tokenize("a  b", false, false, &index);
    assert_eq!(
        tokens,
        vec![
            Token::Word("a".to_string()),
            Token::WhiteSpace,
            Token::WhiteSpace,
            Token::Word("b".to_string()),
        ]
    );
}
