//! Tokens, submissions and the pages of the map server.

use std::collections::HashSet;

use geoguessr_bot::bits::F64Bits;
use geoguessr_bot::guess::ActiveGame;
use geoguessr_bot::guess::FreeGuess;
use geoguessr_bot::state::State;
use geoguessr_bot::state::UtcInstant;
use geoguessr_bot::web::expired_html;
use geoguessr_bot::web::generate_token;
use geoguessr_bot::web::is_valid_coords;
use geoguessr_bot::web::map_html;
use geoguessr_bot::web::new_token_store;
use geoguessr_bot::web::refusal;
use geoguessr_bot::web::serve_map;
use geoguessr_bot::web::submit_guess;
use geoguessr_bot::web::GuessSession;
use geoguessr_bot::web::GuessToken;
use geoguessr_bot::web::Submission;
use geoguessr_bot::web::TokenStore;

fn bits(v: f64) -> F64Bits {
    F64Bits { bits: v.to_bits() }
}

fn valid(lat: f64, lon: f64) -> bool {
    is_valid_coords(bits(lat), bits(lon))
}

fn token(user: &str, round_id: i64, guess_num: u32) -> GuessToken {
    GuessToken { user_id: user.to_owned(), round_id, guess_num, lang: "en".to_owned() }
}

#[test]
fn token_is_24_alphanumeric_chars() {
    let t = generate_token();
    assert_eq!(t.len(), 24, "token must be 24 chars");
    assert!(t.chars().all(|c| c.is_ascii_alphanumeric()), "token must be alphanumeric");
}

#[test]
fn tokens_are_unique() {
    let tokens: Vec<String> = (0..200).map(|_| generate_token()).collect();
    let set: HashSet<&String> = tokens.iter().collect();
    assert_eq!(set.len(), tokens.len(), "all 200 generated tokens must be distinct");
}

#[test]
fn token_store_add_and_retrieve() {
    let mut store = new_token_store();
    store.tokens.insert("tok1".to_owned(), token("@alice:example.com", 1, 1));
    let found = store.tokens.get("tok1");
    assert!(found.is_some());
    assert_eq!(found.unwrap().user_id, "@alice:example.com");
    assert!(store.tokens.get("wrong_token").is_none());
}

#[test]
fn token_store_clear_by_round_and_guess() {
    let mut store = new_token_store();
    store.tokens.insert("t_r1g1".to_owned(), token("@alice:example.com", 1, 1));
    store.tokens.insert("t_r1g2".to_owned(), token("@alice:example.com", 1, 2));
    store.tokens.insert("t_r2g1".to_owned(), token("@alice:example.com", 2, 1));

    store.clear_guess(1, 1);

    assert!(!store.tokens.contains_key("t_r1g1"), "cleared token must be gone");
    assert!(store.tokens.contains_key("t_r1g2"), "other guess token must survive");
    assert!(store.tokens.contains_key("t_r2g1"), "other round token must survive");
}

#[test]
fn token_store_full_clear() {
    let mut store = new_token_store();
    for i in 0..5 {
        store.tokens.insert(format!("tok{i}"), token("@alice:example.com", 1, i));
    }
    store.clear();
    assert_eq!(store.tokens.len(), 0);
    assert!(store.sessions.is_empty());
}

#[test]
fn authorization_wrong_token_not_found() {
    let store = new_token_store();
    assert!(store.lookup("nonexistent").is_none(), "unknown token must not be found");
}

#[test]
fn coord_validation_accepts_valid() {
    assert!(valid(0.0, 0.0));
    assert!(valid(90.0, 180.0));
    assert!(valid(-90.0, -180.0));
    assert!(valid(48.13, 11.58));
    assert!(valid(-33.87, 151.21));
}

#[test]
fn coord_validation_rejects_out_of_range() {
    assert!(!valid(90.01, 0.0));
    assert!(!valid(-90.01, 0.0));
    assert!(!valid(0.0, 180.01));
    assert!(!valid(0.0, -180.01));
}

#[test]
fn coord_validation_rejects_non_finite() {
    assert!(!valid(f64::NAN, 0.0));
    assert!(!valid(0.0, f64::NAN));
    assert!(!valid(f64::INFINITY, 0.0));
    assert!(!valid(0.0, f64::NEG_INFINITY));
}

fn make_game() -> ActiveGame {
    ActiveGame::open("$test:example.com".to_owned(), bits(48.13), bits(11.58))
}

fn make_guess(lat: f64, lon: f64) -> FreeGuess {
    FreeGuess {
        text: format!("{lat},{lon}"),
        lat: bits(lat),
        lon: bits(lon),
        submitted_at: UtcInstant { secs: 1_700_000_000, nanos: 0 },
    }
}

#[test]
fn submit_records_guess() {
    let mut ag = make_game();
    let uid = "@alice:example.com".to_owned();
    let accepted = ag.record_free_guess(uid.clone(), make_guess(10.0, 20.0), 0);
    assert!(accepted, "first submission should be accepted");
    assert!(ag.answer_of(&uid).is_some(), "guess must be stored");
    assert_eq!(ag.answer_of(&uid).unwrap().lat, bits(10.0));
}

#[test]
fn one_shot_blocks_second_submission() {
    let mut ag = make_game();
    let uid = "@alice:example.com".to_owned();
    let first = ag.record_free_guess(uid.clone(), make_guess(10.0, 20.0), 1);
    let second = ag.record_free_guess(uid.clone(), make_guess(30.0, 40.0), 1);
    assert!(first, "first submission must be accepted in one-shot mode");
    assert!(!second, "second submission must be rejected in one-shot mode");
    assert_eq!(
        ag.answer_of(&uid).unwrap().lat,
        bits(10.0),
        "original guess must not be overwritten"
    );
}

#[test]
fn unlimited_mode_allows_update() {
    let mut ag = make_game();
    let uid = "@alice:example.com".to_owned();
    ag.record_free_guess(uid.clone(), make_guess(10.0, 20.0), 0);
    let updated = ag.record_free_guess(uid.clone(), make_guess(30.0, 40.0), 0);
    assert!(updated, "update must be accepted in unlimited mode");
    assert_eq!(
        ag.answer_of(&uid).unwrap().lat,
        bits(30.0),
        "guess must be updated to latest value"
    );
}

#[test]
fn multiplayer_all_submit_independently() {
    let mut ag = make_game();
    let players = ["@alice:s", "@bob:s", "@carol:s"];
    for (i, uid) in players.iter().enumerate() {
        let accepted = ag.record_free_guess(uid.to_string(), make_guess(i as f64, i as f64), 0);
        assert!(accepted, "{uid} should be accepted");
    }
    assert_eq!(ag.answer_count(), 3, "all 3 guesses must be recorded");
}

fn store_for_alice() -> TokenStore {
    let mut store = new_token_store();
    store.tokens.insert(
        "tok".to_owned(),
        GuessToken {
            user_id: "@alice:example.com".to_owned(),
            round_id: 7,
            guess_num: 2,
            lang: "de".to_owned(),
        },
    );
    store
}

#[test]
fn submissions_are_refused_in_order() {
    let store = store_for_alice();
    let mut game = Some(make_game());
    let bad = submit_guess(&store, &mut game, "nope", make_guess(91.0, 0.0), 0);
    assert!(matches!(bad, Submission::Invalid));
    assert_eq!(refusal(&bad), Some((400, "Invalid coordinates")));
    let unknown = submit_guess(&store, &mut game, "nope", make_guess(10.0, 0.0), 0);
    assert!(matches!(unknown, Submission::Unknown));
    assert_eq!(refusal(&unknown), Some((404, "Link expired or invalid")));
    assert_eq!(game.unwrap().answer_count(), 0);
}

#[test]
fn submissions_count_once_where_limited() {
    let store = store_for_alice();
    let mut game = Some(make_game());
    let first = submit_guess(&store, &mut game, "tok", make_guess(10.0, 20.0), 1);
    assert!(refusal(&first).is_none());
    match first {
        Submission::Acknowledged { lang, round_id, guess_num, refresh } => {
            assert_eq!(lang, "de");
            assert_eq!(round_id, 7);
            assert_eq!(guess_num, 2);
            assert!(refresh);
        }
        _ => panic!("not acknowledged"),
    }
    let second = submit_guess(&store, &mut game, "tok", make_guess(30.0, 40.0), 1);
    assert!(matches!(second, Submission::Acknowledged { refresh: false, .. }));
    assert_eq!(game.unwrap().answer_of("@alice:example.com").unwrap().lat, bits(10.0));
}

#[test]
fn submissions_replace_where_unlimited() {
    let store = store_for_alice();
    let mut game = Some(make_game());
    submit_guess(&store, &mut game, "tok", make_guess(10.0, 20.0), 0);
    let second = submit_guess(&store, &mut game, "tok", make_guess(30.0, 40.0), 0);
    assert!(matches!(second, Submission::Acknowledged { refresh: true, .. }));
    assert_eq!(game.unwrap().answer_of("@alice:example.com").unwrap().lat, bits(30.0));
}

#[test]
fn submissions_touch_one_player_only() {
    let store = store_for_alice();
    let mut game = make_game();
    game.record_free_guess("@bob:example.com".to_owned(), make_guess(1.0, 2.0), 0);
    let mut game = Some(game);
    submit_guess(&store, &mut game, "tok", make_guess(10.0, 20.0), 0);
    let game = game.unwrap();
    assert_eq!(game.answer_count(), 2);
    assert_eq!(game.answer_of("@bob:example.com").unwrap().lat, bits(1.0));
}

#[test]
fn submissions_without_a_guess_are_acknowledged() {
    let store = store_for_alice();
    let mut game: Option<ActiveGame> = None;
    let r = submit_guess(&store, &mut game, "tok", make_guess(10.0, 20.0), 0);
    assert!(matches!(r, Submission::Acknowledged { refresh: false, .. }));
    assert!(game.is_none());
}

#[test]
fn links_are_personal_and_expire() {
    let mut state = State::default();
    state.user_langs.insert("@bob:s".to_owned(), "fr".to_owned());
    let mut store = new_token_store();
    let players = vec!["@alice:s".to_owned(), "@bob:s".to_owned()];
    let tokens = store.issue_tokens(&players, &state, 3, 1);
    assert_eq!(tokens.len(), 2);
    let alice = store.lookup(&tokens[0]).unwrap();
    assert_eq!((alice.user_id.as_str(), alice.lang.as_str()), ("@alice:s", "en"));
    let bob = store.lookup(&tokens[1]).unwrap();
    assert_eq!((bob.user_id.as_str(), bob.lang.as_str()), ("@bob:s", "fr"));
    assert_eq!((bob.round_id, bob.guess_num), (3, 1));
    store.clear_guess(3, 1);
    assert!(store.lookup(&tokens[0]).is_none());
    assert!(store.lookup(&tokens[1]).is_none());
}

#[test]
fn status_line_shows_who_has_submitted() {
    let mut store = new_token_store();
    store.tokens.insert("tb".to_owned(), token("@bob:s", 3, 1));
    store.tokens.insert("other".to_owned(), token("@carol:s", 3, 2));
    store.open_session(
        3,
        1,
        GuessSession {
            links_event_id: "$links".to_owned(),
            participants: vec!["@alice:s".to_owned(), "@bob:s".to_owned(), "@carol:s".to_owned()],
        },
    );
    let mut game = make_game();
    game.record_free_guess("@alice:s".to_owned(), make_guess(1.0, 2.0), 0);
    let (event, line) =
        store.update_links_message(3, 1, Some(&game), "https://geo.example.com").unwrap();
    assert_eq!(event, "$links");
    assert_eq!(
        line,
        "✅ alice  ·  [🗺️ bob](https://geo.example.com/g/tb)  ·  ⏳ carol"
    );
    assert!(store.update_links_message(3, 2, Some(&game), "https://geo.example.com").is_none());
    let (_, idle) = store.update_links_message(3, 1, None, "u").unwrap();
    assert!(idle.starts_with("⏳ alice"));
}

#[test]
fn sessions_are_replaced_and_removed() {
    let mut store = new_token_store();
    let session = |id: &str| GuessSession { links_event_id: id.to_owned(), participants: vec![] };
    store.open_session(1, 1, session("$a"));
    store.open_session(1, 2, session("$b"));
    store.open_session(1, 1, session("$c"));
    assert_eq!(store.sessions.get(1, 1).unwrap().links_event_id, "$c");
    assert_eq!(store.sessions.get(1, 2).unwrap().links_event_id, "$b");
    store.clear_guess(1, 1);
    assert!(store.sessions.get(1, 1).is_none());
    assert!(store.sessions.get(1, 2).is_some());
}

#[test]
fn map_page_is_filled_in() {
    let page = map_html("tok", "Ann \"A\" \\ \u{1}\n", true, "de");
    assert!(page.contains("var TOKEN    = \"tok\";"));
    assert!(page.contains("var NAME     = \"Ann \\\"A\\\" \\\\ \\u0001\\n\";"));
    assert!(page.contains("var ONE_SHOT = true;"));
    assert!(page.contains("var LANG     = \"de\";"));
    assert!(!page.contains("__TOKEN__") && !page.contains("__NAME__"));
    assert!(!page.contains("__ONE_SHOT__") && !page.contains("__LANG__"));
    assert!(map_html("t", "n", false, "en").contains("var ONE_SHOT = false;"));
}

#[test]
fn names_on_the_page_agree_with_serde_json() {
    for name in ["plain", "tab\tbell\u{7}", "\u{8}\u{c}\r\u{1f}", "ünïcode 🗺", "</script>"] {
        let page = map_html("t", name, false, "en");
        let quoted = serde_json::to_string(name).unwrap();
        assert!(page.contains(&format!("var NAME     = {quoted};")), "{name:?}");
    }
}

#[test]
fn pages_behind_links() {
    let store = store_for_alice();
    let page = serve_map(&store, "tok", 1).unwrap();
    assert!(page.contains("var NAME     = \"alice\";"));
    assert!(page.contains("var ONE_SHOT = true;"));
    assert!(page.contains("var LANG     = \"de\";"));
    assert!(serve_map(&store, "gone", 1).is_none());
    assert!(expired_html().contains("⏰ This link has expired"));
}
