//! Emoji sources: file names, CDN paths and option defaults.

use imagetext::source::{EmojiOptions, EmojiPath, EmojiSource};
use imagetext::token::EmojiType;

#[test]
fn emoji_src() {
    let src = EmojiSource::Dir(String::from("test"));
    let emoji = EmojiType::Regular(emojis::get("😀").unwrap().as_str().to_string());
    assert_eq!(
        src.build_path(&emoji, false),
        EmojiPath::Local("test/1f600.png".to_string())
    );

    let src = EmojiSource::Twemoji;
    let emoji = EmojiType::Discord(1234567890);
    assert_eq!(
        src.build_path(&emoji, true),
        EmojiPath::External {
            path: "https://cdn.discordapp.com/emojis/1234567890.png".to_string(),
            discord: true
        }
    );

    let emoji = EmojiType::Regular(emojis::get("😀").unwrap().as_str().to_string());
    assert_eq!(
        src.build_path(&emoji, false),
        EmojiPath::External {
            path: "https://emojicdn.elk.sh/😀?style=twemoji".to_string(),
            discord: false
        }
    );

    let src = EmojiSource::Twitter;
    let emoji = EmojiType::Regular(emojis::get("😀").unwrap().as_str().to_string());
    assert_eq!(
        src.build_path(&emoji, false),
        EmojiPath::External {
            path: "https://emojicdn.elk.sh/😀?style=twitter".to_string(),
            discord: false
        }
    );

    let emoji = EmojiType::Discord(1234567890);
    assert_eq!(src.build_path(&emoji, false), EmojiPath::Absent);
}

#[test]
fn emoji_file_name_strips_selectors_without_joiner() {
    // U+2615 U+FE0F: the selector is dropped from the name.
    assert_eq!(EmojiSource::emoji_file_name("☕\u{fe0f}"), "2615.png");
}

#[test]
fn emoji_file_name_keeps_selectors_with_joiner() {
    // A joined sequence keeps every codepoint, selectors included.
    let name = EmojiSource::emoji_file_name("👩\u{200d}❤\u{fe0f}\u{200d}👨");
    assert_eq!(name, "1f469-200d-2764-fe0f-200d-1f468.png");
}

#[test]
fn emoji_file_name_multi_codepoint() {
    assert_eq!(EmojiSource::emoji_file_name("👍🏽"), "1f44d-1f3fd.png");
}

#[test]
fn default_options_and_discord() {
    let d = EmojiOptions::default();
    assert_eq!(d.scale_milli, 1000);
    assert_eq!(d.shift_x, 0);
    assert_eq!(d.shift_y, 0);
    assert!(d.parse_shortcodes);
    assert!(!d.parse_discord_emojis);
    assert_eq!(d.source, EmojiSource::Twitter);

    let dd = EmojiOptions::discord();
    assert!(dd.parse_discord_emojis);
    assert!(dd.parse_shortcodes);
}

#[test]
fn options_path_for_follows_source() {
    let opts = EmojiOptions::dir(String::from("assets"));
    let emoji = EmojiType::Regular("😀".to_string());
    assert_eq!(
        opts.path_for(&emoji),
        EmojiPath::Local("assets/1f600.png".to_string())
    );

    // External ids resolve only when their parsing is on.
    let opts = EmojiOptions::default();
    assert_eq!(opts.path_for(&EmojiType::Discord(7)), EmojiPath::Absent);
    let opts = EmojiOptions::discord();
    assert_eq!(
        opts.path_for(&EmojiType::Discord(7)),
        EmojiPath::External {
            path: "https://cdn.discordapp.com/emojis/7.png".to_string(),
            discord: true
        }
    );
}

#[test]
fn style_names() {
    assert_eq!(EmojiSource::Twitter.style(), "twitter");
    assert_eq!(EmojiSource::Twemoji.style(), "twemoji");
    assert_eq!(EmojiSource::Apple.style(), "apple");
    assert_eq!(EmojiSource::OpenMoji.style(), "openmoji");
    assert_eq!(EmojiSource::Dir(String::new()).style(), "local");
}
