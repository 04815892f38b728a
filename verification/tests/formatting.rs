//! Marked-up messages and file names.

use geoguessr_bot::format::default_label;
use geoguessr_bot::format::mentionify;
use geoguessr_bot::format::mentionify_with_names;
use geoguessr_bot::format::sanitize_filename;
use geoguessr_bot::format::sanitize_filename_at;
use geoguessr_bot::str_map::StrMap;

#[test]
fn replaces_single_mxid() {
    let m = mentionify("Hello @alice:example.org!");
    let html = m.html.expect("should have HTML body");
    assert!(html.contains(r#"href="https://matrix.to/#/@alice:example.org""#));
    assert!(html.contains(">alice<"));
}

#[test]
fn replaces_multiple_mxids() {
    let m = mentionify("@a:x.org and @b:y.org");
    let html = m.html.expect("should have HTML body");
    assert!(html.contains(">a<"));
    assert!(html.contains(">b<"));
}

#[test]
fn no_mxid_returns_plain() {
    let m = mentionify("no mentions here");
    assert!(m.html.is_none());
    assert_eq!(m.body, "no mentions here");
}

#[test]
fn escapes_html_outside_mxid() {
    let m = mentionify("x < y & @u:s.org");
    let html = m.html.expect("should have HTML body");
    assert!(html.contains("&lt;"));
    assert!(html.contains("&amp;"));
}

#[test]
fn bold_markers_become_strong() {
    let m = mentionify("Answer: **Paris**");
    let html = m.html.expect("should have HTML body");
    let plain = m.body;
    assert!(html.contains("<strong>Paris</strong>"), "html={html}");
    assert!(!plain.contains('*'), "plain body={plain}");
    assert!(plain.contains("Paris"));
}

#[test]
fn bold_and_mxid_together() {
    let m = mentionify("**@alice:example.org** got it right");
    let html = m.html.expect("should have HTML body");
    assert!(html.contains("<strong>"), "html={html}");
    assert!(html.contains(r#"href="https://matrix.to/#/@alice:example.org""#));
}

#[test]
fn markdown_link_becomes_anchor() {
    let m = mentionify("📍 Italy [Map](https://example.com/map)");
    let html = m.html.expect("should have HTML body");
    let plain = m.body;
    assert!(html.contains(r#"href="https://example.com/map""#), "html={html}");
    assert!(html.contains(">Map<"), "html={html}");
    assert!(plain.contains("Map"), "plain={plain}");
    assert!(!plain.contains("https://"), "raw URL should not appear in plain body");
}

#[test]
fn with_names_uses_display_name() {
    let mut names = StrMap::new();
    names.insert("@alice:example.org".to_owned(), "Alice Smith".to_owned());
    let m = mentionify_with_names("Hello @alice:example.org!", &names);
    let html = m.html.expect("should have HTML body");
    assert!(html.contains(">Alice Smith<"));
    assert!(html.contains(r#"href="https://matrix.to/#/@alice:example.org""#));
}

#[test]
fn mentionify_sets_m_mentions_on_the_same_event() {
    let m = mentionify("Hello @alice:example.org!");
    assert_eq!(m.mentions, vec!["@alice:example.org".to_owned()]);
}

#[test]
fn mentionify_with_names_sets_m_mentions_for_every_pill() {
    let mut names = StrMap::new();
    names.insert("@alice:example.org".to_owned(), "Alice".to_owned());
    let m = mentionify_with_names("@alice:example.org and @bob:example.org", &names);
    assert_eq!(m.mentions.len(), 2);
    assert!(m.mentions.contains(&"@alice:example.org".to_owned()));
    assert!(m.mentions.contains(&"@bob:example.org".to_owned()));
}

#[test]
fn no_mxid_means_no_mentions_field() {
    let m = mentionify("no mentions here");
    assert!(m.mentions.is_empty());
}

#[test]
fn a_user_is_mentioned_once() {
    let m = mentionify("@a:x.org, @b:y.org and @a:x.org again");
    assert_eq!(m.mentions, vec!["@a:x.org".to_owned(), "@b:y.org".to_owned()]);
}

#[test]
fn identifiers_that_no_server_accepts_are_not_mentioned() {
    let m = mentionify("hi @bob:");
    assert!(m.mentions.is_empty());
}

#[test]
fn labels_are_local_parts() {
    assert_eq!(default_label("@alice:example.org"), "alice");
}

#[test]
fn sanitize_best_guess() {
    assert_eq!(
        sanitize_filename("🥇 Best guess · 6 km away.png"),
        "best_guess_6_km_away.png"
    );
}

#[test]
fn sanitize_emoji_only() {
    assert_eq!(sanitize_filename("🔥🔥🔥.png").starts_with("file_"), true);
    assert!(sanitize_filename("🔥🔥🔥.png").ends_with(".png"));
}

#[test]
fn sanitize_no_extension() {
    assert_eq!(sanitize_filename("📍 2/5"), "2_5");
}

#[test]
fn sanitize_collapses_underscores() {
    assert_eq!(sanitize_filename("📸 My—cool:photo!!!.jpg"), "my_cool_photo.jpg");
}

#[test]
fn sanitize_preserves_alphanumeric() {
    assert_eq!(sanitize_filename("photo123.jpg"), "photo123.jpg");
}

#[test]
fn an_empty_stem_becomes_the_time() {
    assert_eq!(sanitize_filename_at("🔥🔥🔥.png", 1234), "file_1234.png");
    assert_eq!(sanitize_filename_at("Photo.PNG", 1234), "photo.png");
}

#[test]
fn the_time_in_a_file_name_is_the_present() {
    let name = sanitize_filename("🔥");
    let secs: u64 = name.strip_prefix("file_").unwrap().parse().unwrap();
    assert!(secs > 1_700_000_000);
}

#[test]
fn safe_names_are_kept() {
    for name in ["📸 My—cool:photo!!!.JPG", "🔥🔥🔥.png", "a.b.toolong", "x.", ""] {
        let once = sanitize_filename_at(name, 1234);
        assert_eq!(sanitize_filename_at(&once, 5678), once, "{name}");
    }
}

#[test]
fn text_without_markup_is_kept() {
    for text in ["2 * 3 = 6", "a [b] c", "mail a@b", "@ab", "plain <text>"] {
        let m = mentionify(text);
        assert_eq!(m.body, text);
        assert!(m.html.is_none() && m.mentions.is_empty(), "{text}");
    }
}
