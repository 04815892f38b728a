//! Texts, addresses, places, media and small rules.

use std::io::Cursor;
use std::io::Read;

use geoguessr_bot::bits::F32Bits;
use geoguessr_bot::bits::F64Bits;
use geoguessr_bot::clock::bar;
use geoguessr_bot::clock::date_name;
use geoguessr_bot::clock::format_duration;
use geoguessr_bot::clock::hour_minute_text;
use geoguessr_bot::clock::local_clock;
use geoguessr_bot::clock::remaining_secs;
use geoguessr_bot::clock::seconds_until;
use geoguessr_bot::clock::time_bar;
use geoguessr_bot::config;
use geoguessr_bot::config::ScheduleConfig;
use geoguessr_bot::countries;
use geoguessr_bot::countries::Target;
use geoguessr_bot::geocode::coordinate_parts;
use geoguessr_bot::geocode::reverse_url;
use geoguessr_bot::geocode::NominatimAddress;
use geoguessr_bot::imaging;
use geoguessr_bot::lang::flag_to_lang;
use geoguessr_bot::lang::lang_label;
use geoguessr_bot::lang::text_code_to_lang;
use geoguessr_bot::media::detect_mime;
use geoguessr_bot::media::event_number;
use geoguessr_bot::media::header_mime;
use geoguessr_bot::media::image_content_with_info;
use geoguessr_bot::media::known_mime;
use geoguessr_bot::media::local_path;
use geoguessr_bot::sources::GeoImage;
use geoguessr_bot::state::DayNumber;
use geoguessr_bot::state::UtcInstant;
use geoguessr_bot::str_map::StrMap;
use geoguessr_bot::text;
use geoguessr_bot::urls;
use geoguessr_bot::urls::MapEntry;
use geoguessr_bot::zoom;

fn bits(v: f64) -> F64Bits {
    F64Bits { bits: v.to_bits() }
}

// ── Numbers as bits ───────────────────────────────────────────────────────────

#[test]
fn bit_patterns_compare_as_numbers() {
    let values = [
        f64::NEG_INFINITY, -1e300, -1.5, -f64::MIN_POSITIVE, -0.0, 0.0, 5e-324, 0.1, 1.5, 1e300,
        f64::INFINITY, f64::NAN,
    ];
    for a in values {
        for b in values {
            assert_eq!(bits(a).less_than(&bits(b)), a < b, "{a} {b}");
            assert_eq!(bits(a).at_most(&bits(b)), a <= b, "{a} {b}");
            assert_eq!(bits(a).equals(&bits(b)), a == b, "{a} {b}");
        }
    }
    let small = [f32::NEG_INFINITY, -1.5, -0.0, 0.0, 1e-40, 0.3, 0.4, f32::INFINITY, f32::NAN];
    for a in small {
        for b in small {
            let (x, y) = (F32Bits { bits: a.to_bits() }, F32Bits { bits: b.to_bits() });
            assert_eq!(x.less_than(&y), a < b, "{a} {b}");
            assert_eq!(x.at_most(&y), a <= b, "{a} {b}");
        }
    }
}

// ── Text ──────────────────────────────────────────────────────────────────────

#[test]
fn spaces_are_those_of_unicode() {
    for code in 0..=0x10ffff_u32 {
        if let Some(c) = char::from_u32(code) {
            assert_eq!(text::char_is_space(c), c.is_whitespace(), "{code:x}");
        }
    }
}

#[test]
fn words_and_trimming() {
    for s in ["", "  ", "a", " a\tb \u{2003} c\n", "x\u{a0}y"] {
        let expected: Vec<String> = s.split_whitespace().map(|w| w.to_owned()).collect();
        assert_eq!(text::split_words(s), expected, "{s:?}");
        assert_eq!(text::trim(s), s.trim(), "{s:?}");
    }
}

#[test]
fn numbers_in_and_out() {
    let mut out = String::new();
    text::push_decimal(&mut out, u128::MAX);
    assert_eq!(out, u128::MAX.to_string());
    let mut out = String::new();
    text::push_decimal_int(&mut out, -1205);
    text::push_two_digits(&mut out, 7);
    assert_eq!(out, "-120507");
    for s in ["0", "+7", "-7", "", "+", "12x", "18446744073709551615", "18446744073709551616", "007"] {
        assert_eq!(text::parse_number(s, u64::MAX), s.parse::<u64>().ok(), "{s}");
        assert_eq!(
            text::parse_number(s, u32::MAX as u64),
            s.parse::<u32>().ok().map(|n| n as u64),
            "{s}"
        );
    }
    for (a, b) in [(7, 2), (-7, 2), (7, -2), (-7, -2), (0, 5)] {
        assert_eq!(text::divide(a, b), a / b);
    }
}

#[test]
fn searching_and_replacing() {
    assert!(text::has_text("abcabc", "cab") && !text::has_text("abc", "abcd"));
    assert!(text::has_text("", "") && text::starts_with("ab", "a"));
    for (s, pat, with) in [("aaa", "aa", "b"), ("x__A__y__A__", "__A__", "__A__!"), ("abc", "z", "y")] {
        assert_eq!(text::replace(s, pat, with), s.replace(pat, with));
    }
    assert_eq!(text::join(&vec!["a".to_owned(), "b".to_owned()], ", "), "a, b");
    let mut out = String::new();
    text::push_right_aligned(&mut out, "7", 3);
    text::push_right_aligned(&mut out, "12345", 3);
    assert_eq!(out, "  712345");
    assert_eq!(text::bytes_in("aé🗺"), 7);
}

#[test]
fn texts_are_ordered_like_strings() {
    let words = ["", "a", "aa", "b", "B", "é", "🗺", "zz"];
    for a in words {
        for b in words {
            assert_eq!(text::text_at_most(a, b), a <= b, "{a} {b}");
            assert_eq!(text::same_text(a, b), a == b);
        }
    }
}

#[test]
fn maps_keep_the_order_of_insertion() {
    let mut m: StrMap<i32> = StrMap::new();
    m.insert("b".to_owned(), 1);
    m.insert("a".to_owned(), 2);
    m.insert("b".to_owned(), 3);
    assert_eq!(m.len(), 2);
    assert_eq!(m.entry(0), (&"b".to_owned(), &3));
    assert_eq!(m.remove("b"), Some(3));
    assert_eq!(m.remove("b"), None);
    assert_eq!(m.get("a"), Some(&2));
    assert!(!m.contains_key("b"));
}

// ── Time ──────────────────────────────────────────────────────────────────────

#[test]
fn durations() {
    assert_eq!(format_duration(0), "0s");
    assert_eq!(format_duration(59), "59s");
    assert_eq!(format_duration(60), "1m");
    assert_eq!(format_duration(90), "1m 30s");
    assert_eq!(format_duration(3600), "1h");
    assert_eq!(format_duration(3661), "1h 1m");
}

#[test]
fn durations_are_told_apart() {
    let mut seen: Vec<String> = (0..3600).map(format_duration).collect();
    seen.extend((60..600).map(|m| format_duration(60 * m)));
    let all = seen.len();
    seen.sort();
    seen.dedup();
    assert_eq!(seen.len(), all);
    assert_eq!(format_duration(3659), format_duration(3600));
}

#[test]
fn bars() {
    assert_eq!(bar(3, 5), "███░░");
    assert_eq!(time_bar(30, 60), "█████░░░░░");
    assert_eq!(time_bar(90, 60), "██████████");
    assert_eq!(time_bar(0, 0), "░░░░░░░░░░");
}

fn instant(t: chrono::DateTime<chrono::Utc>) -> UtcInstant {
    UtcInstant { secs: t.timestamp(), nanos: t.timestamp_subsec_nanos() }
}

#[test]
fn remaining_timeout_saturates_when_elapsed_exceeds_window() {
    let started = instant(chrono::Utc::now() - chrono::Duration::seconds(200));
    let timeout_secs = 90u64;
    assert_eq!(remaining_secs(started, instant(chrono::Utc::now()), timeout_secs), 0);
}

#[test]
fn remaining_timeout_when_time_is_left() {
    let started = instant(chrono::Utc::now() - chrono::Duration::seconds(30));
    let timeout_secs = 90u64;
    let remaining = remaining_secs(started, instant(chrono::Utc::now()), timeout_secs);
    assert!(remaining > 50 && remaining <= 60, "expected ~60s remaining, got {remaining}");
}

#[test]
fn whole_seconds_are_counted() {
    let t = |secs, nanos| UtcInstant { secs, nanos };
    assert_eq!(seconds_until(t(10, 0), t(7, 1)), 2);
    assert_eq!(seconds_until(t(10, 0), t(7, 0)), 3);
    assert_eq!(seconds_until(t(7, 0), t(10, 0)), 0);
    assert_eq!(remaining_secs(t(7, 500), t(9, 499), 10), 9);
    assert_eq!(remaining_secs(t(9, 0), t(7, 0), 10), 10);
}

#[test]
fn local_time_in_a_zone() {
    // 2024-01-01T12:00:00Z
    let noon = 1_704_110_400;
    assert_eq!(local_clock("UTC", noon).secs, 43_200);
    assert_eq!(local_clock("Europe/Berlin", noon).secs, 46_800);
    assert_eq!(local_clock("Nowhere/Land", noon), local_clock("UTC", noon));
    let day = local_clock("UTC", noon).day;
    assert_eq!(date_name(day), "2024-01-01");
    assert_eq!(local_clock("Pacific/Auckland", noon).day.day, day.day + 1);
    assert_eq!(date_name(DayNumber { day: 1 }), "0001-01-01");
    assert_eq!(hour_minute_text(7, 5), "07:05");
}

// ── Configuration ─────────────────────────────────────────────────────────────

#[test]
fn game_times_are_read() {
    assert_eq!(ScheduleConfig::parse_game_time("07:05"), Some((7, 5)));
    assert_eq!(ScheduleConfig::parse_game_time("23:59"), Some((23, 59)));
    for bad in ["24:00", "12:60", "12", "", "a:b", "-1:00", "12:00:00"] {
        assert_eq!(ScheduleConfig::parse_game_time(bad), None, "{bad}");
    }
    for h in 0..24 {
        for m in 0..60 {
            assert_eq!(ScheduleConfig::parse_game_time(&hour_minute_text(h, m)), Some((h, m)));
        }
    }
}

#[test]
fn defaults_of_the_configuration() {
    assert_eq!(config::default_timezone(), "UTC");
    assert_eq!(config::default_photos_per_location(), 1);
    assert!(config::default_enabled_sources().contains(&"mapillary".to_owned()));
    assert!(!config::default_join_emoji().is_empty());
    assert!(config::default_guesses_per_round() > 0);
    assert!(config::default_answer_timeout() > 0);
    assert!(f64::from_bits(config::default_score_half_life_km().bits) > 0.0);
}

// ── Languages and countries ───────────────────────────────────────────────────

#[test]
fn flags_and_codes() {
    assert_eq!(flag_to_lang("🇦🇹"), Some("de"));
    assert_eq!(flag_to_lang("👍"), None);
    assert_eq!(text_code_to_lang("pt"), Some("pt"));
    assert_eq!(text_code_to_lang("xx"), None);
    assert_eq!(lang_label("de"), "German");
    assert_eq!(lang_label(flag_to_lang("🇫🇷").unwrap()), "French");
}

#[test]
fn every_language_has_a_flag() {
    let flags = [
        "🇬🇧", "🇩🇪", "🇺🇦", "🇫🇷", "🇪🇸", "🇷🇺", "🇮🇹", "🇵🇱", "🇳🇱", "🇵🇹", "🇯🇵", "🇨🇳", "🇸🇦", "🇹🇷", "🇸🇪",
        "🇫🇮", "🇩🇰", "🇨🇿", "🇭🇺", "🇷🇴", "🇬🇷", "🇮🇱", "🇰🇷", "🇹🇭", "🇻🇳", "🇮🇩",
    ];
    for code in [
        "en", "de", "uk", "fr", "es", "ru", "it", "pl", "nl", "pt", "ja", "zh", "ar", "tr", "sv",
        "fi", "da", "cs", "hu", "ro", "el", "he", "ko", "th", "vi", "id",
    ] {
        assert_eq!(text_code_to_lang(code), Some(code));
        assert!(flags.iter().any(|f| flag_to_lang(f) == Some(code)), "{code}");
    }
}

#[test]
fn countries_by_code() {
    assert_eq!(countries::by_iso("de").map(|c| c.name), Some("Germany"));
    assert!(countries::by_iso("XX").is_none());
    let names = countries::all_names();
    assert_eq!(names.len(), 72);
    let mut unique = names.clone();
    unique.sort();
    unique.dedup();
    assert_eq!(unique.len(), 72);
    assert!(countries::equal_ignoring_case("DE", "de"));
    assert!(!countries::equal_ignoring_case("DE", "d"));
    assert_eq!(countries::location_seeds().len(), names.len());
}

#[test]
fn distractors_are_other_countries() {
    let d = countries::pick_distractors("Germany", "Europe", 3);
    assert_eq!(d.len(), 3);
    assert!(!d.contains(&"Germany".to_owned()));
    let mut unique = d.clone();
    unique.sort();
    unique.dedup();
    assert_eq!(unique.len(), 3);
    assert_eq!(countries::pick_distractors("Germany", "Europe", 500).len(), 71);
}

#[test]
fn targets_fall_back_to_the_country() {
    let mut img = GeoImage {
        country: "Germany".to_owned(),
        region: "Europe".to_owned(),
        city: None,
        image_url: "u".to_owned(),
        source: "s".to_owned(),
        attribution: None,
        lat: Some(bits(1.0)),
        lon: Some(bits(2.0)),
        sequence: None,
        extra_image_urls: vec![],
    };
    assert!(matches!(countries::guess_target(&img), Target::Photo(..)));
    img.lon = None;
    assert!(matches!(countries::guess_target(&img), Target::CountryPoint(..)));
    img.country = "Atlantis".to_owned();
    assert!(matches!(countries::guess_target(&img), Target::Origin));
}

// ── Addresses ─────────────────────────────────────────────────────────────────

#[test]
fn components_are_encoded() {
    assert_eq!(urls::url_encode_component("a b/é~"), "a%20b%2F%C3%A9~");
    assert_eq!(urls::encode_query("a b,é"), "a+b%2C%C3%A9");
}

#[test]
fn encoded_components_decode_back() {
    let text = "50% + a/b?c=d&e ü 🌍";
    for encoded in [urls::url_encode_component(text), urls::encode_query(text).replace('+', "%20")] {
        let mut bytes: Vec<u8> = Vec::new();
        let mut rest = encoded.as_str();
        while let Some(c) = rest.chars().next() {
            if c == '%' {
                bytes.push(u8::from_str_radix(&rest[1..3], 16).unwrap());
                rest = &rest[3..];
            } else {
                bytes.push(c as u8);
                rest = &rest[1..];
            }
        }
        assert_eq!(bytes, text.as_bytes());
    }
}

fn unpack(url: &str) -> String {
    let packed = url.split("#z=").nth(1).unwrap();
    let bytes =
        base64::Engine::decode(&base64::engine::general_purpose::URL_SAFE_NO_PAD, packed).unwrap();
    let mut text = String::new();
    flate2::read::DeflateDecoder::new(&bytes[..]).read_to_string(&mut text).unwrap();
    text
}

fn map_entry(user: &str, avatar: &str) -> MapEntry {
    MapEntry {
        user_id: user.to_owned(),
        lat: "1.2345".to_owned(),
        lon: "-2.0000".to_owned(),
        red: 50,
        green: 120,
        blue: 255,
        score: 4000,
        dist: "12.3".to_owned(),
        avatar: avatar.to_owned(),
    }
}

#[test]
fn fragments_unpack_to_their_parameters() {
    let e = map_entry("@a:s", "data:x");
    let url = urls::build_guess_map_url("Ann B", "en", "3.0000", "4.0000", &e);
    assert!(url.starts_with("https://polynomialdivision.github.io/geo-picker/reveal.html#z="));
    assert_eq!(unpack(&url), urls::guess_map_params("Ann B", "en", "3.0000", "4.0000", &e));
    assert!(unpack(&url).starts_with("lang=en&alat=3.0000&alon=4.0000"));
    assert!(unpack(&url).contains("Ann%20B"));
    assert_eq!(urls::hash_of(&vec![0xfb, 0xff, 0x01]), "#z=-_8B");
    assert_eq!(unpack(&urls::compress_to_hash("hello hello hello")), "hello hello hello");
}

#[test]
fn avatars_can_be_left_out() {
    let mut names: StrMap<String> = StrMap::new();
    names.insert("@a:s".to_owned(), "Ann".to_owned());
    let entries = vec![map_entry("@a:s", "data:x"), map_entry("@b:s", "data:y")];
    let full = unpack(&urls::build_all_guesses_map_url(&names, &entries, "1.0", "2.0", true));
    let slim = unpack(&urls::build_all_guesses_map_url(&names, &entries, "1.0", "2.0", false));
    assert_eq!(
        full,
        "lang=en&alat=1.0&alon=2.0&g=Ann|1.2345|-2.0000|3278FF|data:x|4000|12.3&g=b|1.2345|-2.0000|3278FF|data:y|4000|12.3"
    );
    assert_eq!(
        slim,
        "lang=en&alat=1.0&alon=2.0&g=Ann|1.2345|-2.0000|3278FF||4000|12.3&g=b|1.2345|-2.0000|3278FF||4000|12.3"
    );
    assert_eq!(urls::display_name(&names, "@a:s"), "Ann");
    assert_eq!(urls::display_name(&names, "@@b:s:t"), "b");
    assert_eq!(urls::default_name("plain"), "plain");
}

#[test]
fn map_pages_of_places() {
    assert_eq!(
        urls::osm_url("1.0000", "2.0000"),
        "https://www.openstreetmap.org/?mlat=1.0000&mlon=2.0000#map=8/1.0000/2.0000"
    );
}

// ── Places ────────────────────────────────────────────────────────────────────

fn address() -> NominatimAddress {
    NominatimAddress {
        city: None,
        town: None,
        village: None,
        municipality: None,
        county: None,
        state: None,
        country: None,
    }
}

#[test]
fn places_are_labelled() {
    let some = |s: &str| Some(s.to_owned());
    assert_eq!(address().label(), None);
    assert_eq!(
        NominatimAddress { country: some("Kazakhstan"), ..address() }.label(),
        some("Kazakhstan")
    );
    assert_eq!(
        NominatimAddress { city: some("Astana"), country: some("Kazakhstan"), ..address() }.label(),
        some("Astana, Kazakhstan")
    );
    assert_eq!(NominatimAddress { state: some("Bavaria"), ..address() }.label(), some("Bavaria"));
    let a = NominatimAddress {
        town: some("T"),
        village: some("V"),
        municipality: some("M"),
        county: some("C"),
        state: some("S"),
        ..address()
    };
    assert_eq!(a.locality().map(|s| s.as_str()), Some("T"));
    let a = NominatimAddress { town: None, ..a };
    assert_eq!(a.locality().map(|s| s.as_str()), Some("V"));
    let a = NominatimAddress { village: None, ..a };
    assert_eq!(a.locality().map(|s| s.as_str()), Some("M"));
    let a = NominatimAddress { municipality: None, ..a };
    assert_eq!(a.locality().map(|s| s.as_str()), Some("C"));
}

#[test]
fn coordinates_are_told_from_names() {
    assert_eq!(
        coordinate_parts(" 48.1 , 11.5 "),
        Some(("48.1".to_owned(), "11.5".to_owned()))
    );
    assert_eq!(coordinate_parts("1,2,3"), Some(("1".to_owned(), "2,3".to_owned())));
    assert_eq!(coordinate_parts("Berlin, Germany"), None);
    assert_eq!(coordinate_parts("1e5,2"), None);
    assert_eq!(coordinate_parts("12,ß"), None);
    assert_eq!(coordinate_parts("48.1"), None);
}

#[test]
fn requests_for_places() {
    assert_eq!(
        reverse_url("48.1", "11.5", "de"),
        "https://nominatim.openstreetmap.org/reverse?lat=48.1&lon=11.5&format=json&zoom=10&accept-language=de"
    );
    assert_eq!(
        geoguessr_bot::geocode::search_url("Unter den Linden 1, Berlin"),
        "https://nominatim.openstreetmap.org/search?q=Unter+den+Linden+1%2C+Berlin&format=json&limit=1&addressdetails=1"
    );
}

// ── Media ─────────────────────────────────────────────────────────────────────

#[test]
fn media_types() {
    assert_eq!(detect_mime(b"\x89PNG\r\n").essence, "image/png");
    assert_eq!(detect_mime(b"\xff\xd8\xff\xe0").essence, "image/jpeg");
    assert_eq!(detect_mime(b"").subtype, "jpeg");
    assert_eq!(header_mime(Some("image/webp; charset=x")).subtype, "webp");
    assert_eq!(header_mime(Some("image/webp; charset=x")).essence, "image/webp");
    assert_eq!(header_mime(Some("image/svg+xml")).subtype, "svg");
    assert_eq!(header_mime(Some("nonsense")).essence, "image/jpeg");
    assert_eq!(header_mime(None).essence, "image/jpeg");
    assert_eq!(known_mime(None).subtype, "jpeg");
}

#[test]
fn local_and_remote_photos() {
    assert_eq!(local_path("/a/b.jpg").as_deref(), Some("/a/b.jpg"));
    assert_eq!(local_path("file:///a/b.jpg").as_deref(), Some("/a/b.jpg"));
    assert_eq!(local_path("file://file://x").as_deref(), Some("x"));
    assert_eq!(local_path("https://a/b.jpg"), None);
    assert_eq!(local_path(""), None);
}

#[test]
fn photos_are_posted_with_what_is_known() {
    let c = image_content_with_info(
        "📍 2/5".to_owned(),
        &header_mime(Some("image/jpeg")),
        1024,
        0,
        2048,
    );
    assert_eq!(c.caption, "📍 2/5");
    assert_eq!(c.filename, "2_5.jpg");
    assert_eq!(c.mimetype, "image/jpeg");
    assert_eq!((c.width, c.height, c.size), (Some(1024), None, Some(2048)));
    let c = image_content_with_info("a".to_owned(), &header_mime(Some("image/gif")), 1, 1, 1);
    assert_eq!(c.filename, "a.gif");
    let c = image_content_with_info("a".to_owned(), &header_mime(Some("image/tiff")), 1, 1, 1);
    assert_eq!(c.filename, "a");
    assert_eq!(event_number(0x1f_ffff_ffff_ffff), Some(0x1f_ffff_ffff_ffff));
    assert_eq!(event_number(0x20_0000_0000_0000), None);
}

// ── Images ────────────────────────────────────────────────────────────────────

fn png(w: u32, h: u32, f: impl Fn(u32, u32) -> u8) -> Vec<u8> {
    let img = image::GrayImage::from_fn(w, h, |x, y| image::Luma([f(x, y)]));
    let mut out = Cursor::new(Vec::new());
    img.write_to(&mut out, image::ImageFormat::Png).unwrap();
    out.into_inner()
}

#[test]
fn sizes_are_read_from_headers() {
    assert_eq!(imaging::image_dimensions(&png(12, 34, |_, _| 0)), (12, 34));
    assert_eq!(imaging::image_dimensions(b"no image"), (0, 0));
    assert_eq!(imaging::known_size(Some((1, 2))), (1, 2));
}

#[test]
fn sharpness_is_the_energy_of_the_laplacian() {
    let flat = imaging::sharpness_energy(&png(8, 8, |_, _| 100)).unwrap();
    assert_eq!(flat.0, 0);
    let dot = imaging::Luma { width: 3, height: 3, raw: vec![0, 0, 0, 0, 10, 0, 0, 0, 0] };
    assert_eq!(imaging::laplacian_energy(&dot), Some((1600, 1)));
    let board = imaging::sharpness_energy(&png(8, 8, |x, y| if (x + y) % 2 == 0 { 255 } else { 0 }));
    assert_eq!(board, Some((36 * 1020 * 1020, 36)));
    assert_eq!(imaging::sharpness_energy(b"no image"), None);
}

#[test]
fn overlays_are_measured_in_the_bottom_fifth() {
    let m = imaging::overlay_measures(&png(20, 20, |_, y| if y >= 18 { 255 } else { 0 })).unwrap();
    assert_eq!(m.strip, 16);
    assert!(m.horizontal > 0);
    assert_eq!(m.vertical, 0);
    assert!(imaging::overlay_measures(&png(9, 20, |_, _| 0)).is_none());
    assert_eq!(imaging::overlay_strip(10, 11), Some(8));
    assert_eq!(imaging::overlay_strip(10, 10), None);
}

#[test]
fn avatars_are_cut_square() {
    assert_eq!(imaging::center_square(100, 60), (20, 0, 60));
    assert_eq!(imaging::center_square(7, 10), (0, 1, 7));
}

#[test]
fn avatars_are_cut_to_the_middle_square() {
    let file = png(5, 2, |x, y| (10 * x + y) as u8);
    let cut = image::load_from_memory(&imaging::avatar_square(&file).unwrap()).unwrap();
    assert_eq!((cut.width(), cut.height()), (2, 2));
    let expected: Vec<u8> =
        [10u8, 20, 11, 21].iter().flat_map(|v| [*v, *v, *v, 255]).collect();
    assert_eq!(cut.to_rgba8().into_raw(), expected);
    assert_eq!(imaging::avatar_square(b"no image"), None);
}

#[test]
fn avatars_keep_their_depth() {
    let deep: image::ImageBuffer<image::Rgb<u16>, Vec<u16>> =
        image::ImageBuffer::from_fn(3, 5, |x, y| image::Rgb([1 + x as u16, 300 * y as u16, 65535]));
    let mut file = Vec::new();
    image::DynamicImage::ImageRgb16(deep)
        .write_to(&mut std::io::Cursor::new(&mut file), image::ImageFormat::Png)
        .unwrap();
    let cut = image::load_from_memory(&imaging::avatar_square(&file).unwrap()).unwrap();
    assert_eq!(cut.color(), image::ColorType::Rgb16);
    let pixels = cut.into_rgb16().into_raw();
    assert_eq!(pixels.len(), 27);
    assert_eq!(pixels[..6], [1, 300, 65535, 2, 300, 65535]);
}

// ── Maps ──────────────────────────────────────────────────────────────────────

#[test]
fn maps_are_zoomed_by_distance() {
    let caps = [
        (0.0, 15), (0.5, 15), (0.6, 14), (2.0, 14), (8.0, 13), (20.0, 12), (80.0, 10), (250.0, 8),
        (700.0, 7), (2000.0, 6), (5000.0, 5), (5000.1, 4), (f64::NAN, 4),
    ];
    for (d, cap) in caps {
        assert_eq!(zoom::distance_cap(bits(d)), cap, "{d}");
    }
}

#[test]
fn maps_show_all_points() {
    let spans: Vec<F64Bits> = (0..16).map(|z| bits(2f64.powi(z))).collect();
    assert_eq!(zoom::guess_map_zoom(15, &spans, bits(0.1)), 8);
    assert_eq!(zoom::guess_map_zoom(3, &spans, bits(0.1)), 3);
    assert_eq!(zoom::guess_map_zoom(15, &spans, bits(9000.0)), 4);
    let spans: Vec<F64Bits> = (0..12).map(|z| bits(420.0 * 2f64.powi(z - 5))).collect();
    assert_eq!(zoom::round_map_zoom(11, &spans), 5);
    assert_eq!(zoom::round_map_zoom(2, &spans), 2);
    let wide: Vec<F64Bits> = (0..12).map(|_| bits(1e9)).collect();
    assert_eq!(zoom::round_map_zoom(11, &wide), 0);
}
