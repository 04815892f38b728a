//! Filling the cache, and what comes in from the room.

use std::collections::VecDeque;

use geoguessr_bot::bits::F64Bits;
use geoguessr_bot::config::LocalConfig;
use geoguessr_bot::inbox::accepts_invite;
use geoguessr_bot::inbox::concerns_game;
use geoguessr_bot::inbox::guess_reply;
use geoguessr_bot::inbox::join_via;
use geoguessr_bot::inbox::read_message;
use geoguessr_bot::inbox::refused_reply;
use geoguessr_bot::inbox::sort_message;
use geoguessr_bot::inbox::still_ahead;
use geoguessr_bot::inbox::thread_root;
use geoguessr_bot::inbox::GuessOutcome;
use geoguessr_bot::inbox::Incoming;
use geoguessr_bot::inbox::JoinState;
use geoguessr_bot::prefetch::choose_source;
use geoguessr_bot::prefetch::evict_near;
use geoguessr_bot::prefetch::images_needed;
use geoguessr_bot::prefetch::plan_source;
use geoguessr_bot::prefetch::skip_countries;
use geoguessr_bot::prefetch::Batch;
use geoguessr_bot::prefetch::SourcePlan;
use geoguessr_bot::sources::GeoImage;
use geoguessr_bot::state::PendingJoin;
use geoguessr_bot::state::State;
use geoguessr_bot::state::UtcInstant;
use geoguessr_bot::str_map::StrMap;

fn bits(v: f64) -> F64Bits {
    F64Bits { bits: v.to_bits() }
}

fn image(country: &str, at: Option<(f64, f64)>, extra: usize) -> GeoImage {
    GeoImage {
        country: country.to_owned(),
        region: "Europe".to_owned(),
        city: None,
        image_url: "https://example.com/img.jpg".to_owned(),
        source: "test".to_owned(),
        attribution: None,
        lat: at.map(|c| bits(c.0)),
        lon: at.map(|c| bits(c.1)),
        sequence: Some(format!("seq-{country}")),
        extra_image_urls: (0..extra).map(|i| format!("x{i}")).collect(),
    }
}

// ── Cache ─────────────────────────────────────────────────────────────────────

#[test]
fn locations_near_played_ones_are_evicted() {
    let mut cache: VecDeque<GeoImage> = VecDeque::from(vec![
        image("A", Some((1.0, 1.0)), 0),
        image("B", None, 0),
        image("C", Some((2.0, 2.0)), 0),
        image("D", Some((3.0, 3.0)), 0),
    ]);
    let dropped = evict_near(&mut cache, &vec![bits(10.0), bits(0.0), bits(75.0), bits(74.0)]);
    assert_eq!(dropped, 2);
    let left: Vec<&str> = cache.iter().map(|i| i.country.as_str()).collect();
    assert_eq!(left, vec!["B", "C"]);
}

#[test]
fn only_locations_with_enough_photos_count() {
    let cache: VecDeque<GeoImage> =
        VecDeque::from(vec![image("A", None, 0), image("B", None, 1), image("C", None, 2)]);
    assert_eq!(images_needed(&cache, 1, 5), 2);
    assert_eq!(images_needed(&cache, 2, 5), 3);
    assert_eq!(images_needed(&cache, 3, 5), 4);
    assert_eq!(images_needed(&cache, 1, 2), 0);
}

#[test]
fn a_full_batch_reaches_the_target() {
    let mut cache: VecDeque<GeoImage> = VecDeque::from(vec![image("A", None, 0)]);
    let needed = images_needed(&cache, 2, 3);
    let mut batch = Batch::begin(vec![], vec![], 4, true);
    assert_eq!(batch.filter.streak(), 4);
    for i in 0..needed {
        batch.store(&mut cache, image(&format!("N{i}"), Some((i as f64, 0.0)), 1), true);
    }
    assert_eq!(images_needed(&cache, 2, 3), 0);
    assert_eq!(batch.filter.streak(), 0);
    assert_eq!(batch.coords.len(), needed);
    assert_eq!(batch.sequences[0].as_deref(), Some("seq-N0"));
}

#[test]
fn a_location_without_coordinates_is_not_remembered() {
    let mut cache: VecDeque<GeoImage> = VecDeque::new();
    let mut batch = Batch::begin(vec![], vec![], 0, false);
    batch.store(&mut cache, image("A", None, 0), false);
    assert_eq!(cache.len(), 1);
    assert!(batch.coords.is_empty() && batch.sequences.is_empty());
}

#[test]
fn known_places_are_cached_and_played_ones() {
    let cache: VecDeque<GeoImage> = VecDeque::from(vec![
        image("A", Some((0.0, 1.0)), 0),
        image("B", None, 0),
        image("C", Some((2.0, 3.0)), 0),
    ]);
    let played = vec![
        (bits(-0.0), bits(1.0)),
        (bits(5.0), bits(5.0)),
        (bits(5.0), bits(5.0)),
        (bits(f64::NAN), bits(0.0)),
        (bits(f64::NAN), bits(0.0)),
    ];
    let (coords, seqs) = Batch::known_places(&cache, &played);
    assert_eq!(coords.len(), 5);
    assert_eq!(coords[2], (bits(5.0), bits(5.0)));
    assert_eq!(seqs, vec![Some("seq-A".to_owned()), Some("seq-C".to_owned())]);
}

#[test]
fn countries_are_skipped_from_the_third_time_on() {
    let mut played: StrMap<u32> = StrMap::new();
    played.insert("Peru".to_owned(), 2);
    played.insert("Chile".to_owned(), 3);
    played.insert("Kenya".to_owned(), 2);
    let cache: VecDeque<GeoImage> = VecDeque::from(vec![
        image("Peru", None, 0),
        image("Iran", None, 0),
        image("Iran", None, 0),
        image("Iran", None, 0),
        image("Japan", None, 0),
    ]);
    let mut skip = skip_countries(&played, &cache);
    skip.sort();
    assert_eq!(skip, vec!["Chile".to_owned(), "Iran".to_owned(), "Peru".to_owned()]);
}

#[test]
fn sources_are_chosen_among_the_enabled() {
    assert_eq!(choose_source(&vec![]), "mapillary");
    assert_eq!(choose_source(&vec!["local".to_owned()]), "local");
    let both = vec!["local".to_owned(), "mapillary".to_owned()];
    let picks: Vec<String> = (0..100).map(|_| choose_source(&both)).collect();
    assert!(picks.contains(&"local".to_owned()) && picks.contains(&"mapillary".to_owned()));
}

#[test]
fn sources_are_planned() {
    let with = LocalConfig { path: Some("/photos".to_owned()) };
    let without = LocalConfig { path: None };
    assert!(matches!(plan_source("mapillary", &without), SourcePlan::Mapillary));
    match plan_source("local", &with) {
        SourcePlan::Local(dir) => assert_eq!(dir, "/photos"),
        _ => panic!("not local"),
    }
    assert!(matches!(plan_source("local", &without), SourcePlan::NoDirectory));
    assert!(matches!(plan_source("wikimedia", &with), SourcePlan::Unknown));
}

// ── Messages ──────────────────────────────────────────────────────────────────

#[test]
fn invitations() {
    assert!(accepts_invite(&vec![], "@x:s"));
    let allowed = vec!["@a:s".to_owned()];
    assert!(accepts_invite(&allowed, "@a:s"));
    assert!(!accepts_invite(&allowed, "@x:s"));
    assert_eq!(join_via("s", None), vec!["s".to_owned()]);
    assert_eq!(join_via("s", Some("s")), vec!["s".to_owned()]);
    assert_eq!(join_via("s", Some("t")), vec!["s".to_owned(), "t".to_owned()]);
}

#[test]
fn events_that_matter() {
    assert!(concerns_game("@a:s", "@bot:s", true, "!r:s", "!r:s"));
    assert!(!concerns_game("@bot:s", "@bot:s", true, "!r:s", "!r:s"));
    assert!(!concerns_game("@a:s", "@bot:s", false, "!r:s", "!r:s"));
    assert!(!concerns_game("@a:s", "@bot:s", true, "!other:s", "!r:s"));
}

fn shown(m: Incoming) -> String {
    match m {
        Incoming::Ignored => "ignored".to_owned(),
        Incoming::Guess(q) => format!("guess {q}"),
        Incoming::Command(c) => format!("command {c}"),
    }
}

#[test]
fn messages_are_told_apart() {
    assert_eq!(shown(read_message("hello")), "ignored");
    assert_eq!(shown(read_message("")), "ignored");
    assert_eq!(shown(read_message("  !guess   Paris, France ")), "guess Paris, France");
    assert_eq!(shown(read_message("!GUESS Lima")), "guess Lima");
    assert_eq!(shown(read_message("!guess")), "command !guess");
    assert_eq!(shown(read_message("!guess   ")), "command !guess");
    assert_eq!(shown(read_message("\n!scores now\t")), "command !scores now");
    assert_eq!(shown(sort_message("!x", "!guess ")), "ignored");
}

#[test]
fn replies_stand_in_the_thread() {
    assert_eq!(thread_root(Some("$t".to_owned()), "$e".to_owned()), "$t");
    assert_eq!(thread_root(None, "$e".to_owned()), "$e");
}

#[test]
fn replies_to_typed_guesses() {
    assert_eq!(
        guess_reply(GuessOutcome::Recorded, "@a:s", "Lima"),
        "✅ @a:s — guess recorded for \"Lima\""
    );
    assert_eq!(
        guess_reply(GuessOutcome::Refused, "@a:s", "Lima"),
        "❌ @a:s — you already submitted a guess"
    );
    assert_eq!(
        guess_reply(GuessOutcome::NotFound, "@a:s", "Lima"),
        "❓ @a:s — could not find \"Lima\", try a different name"
    );
    assert_eq!(refused_reply(), "❌ This command requires admin privileges.");
}

// ── Joining ───────────────────────────────────────────────────────────────────

fn pending(secs: i64) -> PendingJoin {
    PendingJoin {
        event_id: "$join:example.com".to_owned(),
        join_emoji: "🇬🇧".to_owned(),
        slot: Some("12:00".to_owned()),
        game_at_utc: UtcInstant { secs, nanos: 5 },
        answer_timeout_secs: 120,
    }
}

#[test]
fn a_flag_joins_and_sets_the_language() {
    let mut state = State::default();
    let mut join = JoinState::default();
    assert_eq!(join.join_emoji, "👍");
    assert!(!join.react(&mut state, "$m", "🇩🇪", "@a:s"));
    join.open_window("$m".to_owned());
    assert!(!join.react(&mut state, "$other", "🇩🇪", "@a:s"));
    assert!(!join.react(&mut state, "$m", "👍", "@a:s"));
    assert!(join.participants.is_empty());
    assert_eq!(state.language_of("@a:s"), "en");
    assert!(join.react(&mut state, "$m", "🇩🇪", "@a:s"));
    assert!(join.react(&mut state, "$m", "🇫🇷", "@b:s"));
    assert!(join.react(&mut state, "$m", "🇺🇦", "@a:s"));
    assert_eq!(join.participants, vec!["@a:s".to_owned(), "@b:s".to_owned()]);
    assert_eq!(state.language_of("@a:s"), "uk");
    assert_eq!(state.language_of("@b:s"), "fr");
    assert_eq!(join.close_window(), vec!["@a:s".to_owned(), "@b:s".to_owned()]);
    assert!(join.message_event_id.is_none() && join.participants.is_empty());
}

#[test]
fn a_restart_takes_the_window_up_again() {
    let pj = pending(1000);
    let mut join = JoinState::default();
    join.restore(Some(pj.event_id.clone()), &pj);
    assert_eq!(join.message_event_id.as_deref(), Some("$join:example.com"));
    assert_eq!(join.join_emoji, "🇬🇧");
    join.restore(None, &pj);
    assert_eq!(join.message_event_id.as_deref(), Some("$join:example.com"));
    assert!(still_ahead(&pj, UtcInstant { secs: 999, nanos: 999_999_999 }));
    assert!(still_ahead(&pj, UtcInstant { secs: 1000, nanos: 4 }));
    assert!(!still_ahead(&pj, UtcInstant { secs: 1000, nanos: 5 }));
    assert!(!still_ahead(&pj, UtcInstant { secs: 1001, nanos: 0 }));
}
