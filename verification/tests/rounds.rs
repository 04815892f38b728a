//! Rounds, guesses, schedules and commands.

use std::collections::VecDeque;

use geoguessr_bot::bits::F64Bits;
use geoguessr_bot::clock::LocalClock;
use geoguessr_bot::commands::argument;
use geoguessr_bot::commands::cancel_arg;
use geoguessr_bot::commands::cancel_round;
use geoguessr_bot::commands::cancel_scheduled;
use geoguessr_bot::commands::command_of;
use geoguessr_bot::commands::game_info;
use geoguessr_bot::commands::help_text;
use geoguessr_bot::commands::may_run;
use geoguessr_bot::commands::parse_command;
use geoguessr_bot::commands::screen;
use geoguessr_bot::commands::Admission;
use geoguessr_bot::commands::prefetch_message;
use geoguessr_bot::commands::reset_confirmed;
use geoguessr_bot::commands::set_language;
use geoguessr_bot::commands::start_message;
use geoguessr_bot::commands::Command;
use geoguessr_bot::config::RatingConfig;
use geoguessr_bot::config::ScheduleConfig;
use geoguessr_bot::guess::add_scores;
use geoguessr_bot::guess::all_in_message;
use geoguessr_bot::guess::count_missed;
use geoguessr_bot::guess::countdown_message;
use geoguessr_bot::guess::image_label;
use geoguessr_bot::guess::links_line;
use geoguessr_bot::guess::missed_players;
use geoguessr_bot::guess::next_stage;
use geoguessr_bot::guess::prompt_message;
use geoguessr_bot::guess::rank_guesses;
use geoguessr_bot::guess::skipped_message;
use geoguessr_bot::guess::ActiveGame;
use geoguessr_bot::guess::FreeGuess;
use geoguessr_bot::guess::GuessEvent;
use geoguessr_bot::guess::GuessStage;
use geoguessr_bot::guess::ScoredGuess;
use geoguessr_bot::results::best_guess_caption;
use geoguessr_bot::results::legend;
use geoguessr_bot::results::location_text;
use geoguessr_bot::results::player_color;
use geoguessr_bot::results::reveal_messages;
use geoguessr_bot::results::maps_to_post;
use geoguessr_bot::results::round_map_caption;
use geoguessr_bot::results::round_results;
use geoguessr_bot::results::RevealRow;
use geoguessr_bot::results::RoundStat;
use geoguessr_bot::round::add_join_reaction;
use geoguessr_bot::round::begin_round;
use geoguessr_bot::round::join_message;
use geoguessr_bot::round::join_reaction_flags;
use geoguessr_bot::round::next_step;
use geoguessr_bot::round::nobody_joined_message;
use geoguessr_bot::round::pop_images;
use geoguessr_bot::round::record_slot;
use geoguessr_bot::round::replay_message;
use geoguessr_bot::round::round_aborted_message;
use geoguessr_bot::round::round_params;
use geoguessr_bot::round::sort_participants;
use geoguessr_bot::round::starting_message;
use geoguessr_bot::round::triggered_by;
use geoguessr_bot::round::valid_players;
use geoguessr_bot::round::GameOverrides;
use geoguessr_bot::round::RoundKind;
use geoguessr_bot::round::RoundRun;
use geoguessr_bot::round::RoundStep;
use geoguessr_bot::round::StepResult;
use geoguessr_bot::scheduling::opening_second;
use geoguessr_bot::scheduling::schedule_game;
use geoguessr_bot::scheduling::set_schedule;
use geoguessr_bot::scheduling::OnceOutcome;
use geoguessr_bot::scheduling::SlotOutcome;
use geoguessr_bot::scheduling::Tick;
use geoguessr_bot::sources::GeoImage;
use geoguessr_bot::state::ActiveDmParticipant;
use geoguessr_bot::state::DayNumber;
use geoguessr_bot::state::PendingJoin;
use geoguessr_bot::state::ScheduleOverrides;
use geoguessr_bot::state::State;
use geoguessr_bot::state::UtcInstant;
use geoguessr_bot::str_map::StrMap;

fn bits(v: f64) -> F64Bits {
    F64Bits { bits: v.to_bits() }
}

fn texts(v: &[&str]) -> Vec<String> {
    v.iter().map(|s| s.to_string()).collect()
}

fn schedule() -> ScheduleConfig {
    ScheduleConfig {
        room_id: "!room:s".to_owned(),
        game_times: texts(&["12:00", "18:30"]),
        answer_timeout_secs: 90,
        guesses_per_round: 3,
        inter_guess_secs: 5,
        reminder_before_secs: 600,
        timezone: "Europe/Berlin".to_owned(),
        join_emoji: "👍".to_owned(),
        photos_per_location: 2,
        max_guesses_per_player: 0,
        score_half_life_km: bits(1000.0),
        rating: RatingConfig::default(),
    }
}

fn image(name: &str, extra: usize) -> GeoImage {
    GeoImage {
        country: name.to_owned(),
        region: "Europe".to_owned(),
        city: None,
        image_url: format!("https://x/{name}"),
        source: "test".to_owned(),
        attribution: None,
        lat: Some(bits(1.0)),
        lon: Some(bits(2.0)),
        sequence: None,
        extra_image_urls: (0..extra).map(|i| format!("e{i}")).collect(),
    }
}

fn guess(lat: f64) -> FreeGuess {
    FreeGuess {
        text: "x".to_owned(),
        lat: bits(lat),
        lon: bits(0.0),
        submitted_at: UtcInstant { secs: 0, nanos: 0 },
    }
}

// ── Parameters ────────────────────────────────────────────────────────────────

#[test]
fn overrides_of_a_game_beat_those_of_the_schedule() {
    let over = ScheduleOverrides {
        guesses_per_round: Some(5),
        answer_timeout_secs: Some(45),
        photos_per_location: None,
    };
    let p = round_params(false, &None, &over, &schedule());
    assert_eq!((p.guesses, p.reminder_secs, p.answer_timeout_secs), (5, 600, 45));
    assert!(p.join_phase);
    let game = GameOverrides {
        reminder_before_secs: Some(0),
        answer_timeout_secs: Some(30),
        guesses_per_round: Some(1),
    };
    let p = round_params(false, &Some(game), &over, &schedule());
    assert_eq!((p.guesses, p.reminder_secs, p.answer_timeout_secs), (1, 0, 30));
    assert!(!p.join_phase);
    let p = round_params(true, &None, &ScheduleOverrides::default(), &schedule());
    assert_eq!((p.guesses, p.answer_timeout_secs), (3, 90));
    assert!(!p.join_phase);
    assert_eq!(triggered_by(true), "manual");
}

// ── Joining ───────────────────────────────────────────────────────────────────

#[test]
fn the_join_message_offers_flags() {
    assert_eq!(
        join_message(600),
        "🌍 GeoGuessr starts in 10m! @room\nReact with your flag to join and set the map language:\n🇬🇧 🇩🇪 🇺🇦 🇫🇷"
    );
    let mut players: Vec<String> = Vec::new();
    for flag in join_reaction_flags() {
        add_join_reaction(&mut players, flag, &format!("@{flag}:s"), Some("@bot:s"));
    }
    assert_eq!(players.len(), 4);
    add_join_reaction(&mut players, "🇩🇪", "@bot:s", Some("@bot:s"));
    add_join_reaction(&mut players, "👍", "@x:s", Some("@bot:s"));
    assert_eq!(players.len(), 4);
}

#[test]
fn players_are_announced_in_order() {
    let ids = sort_participants(texts(&["@b:s", "@a:s"]));
    assert_eq!(ids, texts(&["@a:s", "@b:s"]));
    let text = starting_message(&ids);
    assert!(text.starts_with("🌍 GeoGuessr starting now! 2 players"), "{text}");
    assert!(starting_message(&texts(&["@a:s"])).starts_with("🌍 GeoGuessr starting now! 1 player"));
    assert!(!nobody_joined_message().is_empty());
    assert!(!round_aborted_message().is_empty());
}

// ── Images ────────────────────────────────────────────────────────────────────

#[test]
fn rounds_take_usable_images_from_the_front() {
    let mut cache: VecDeque<GeoImage> = VecDeque::from(vec![
        image("few", 0),
        image("near", 1),
        image("a", 1),
        image("b", 1),
        image("c", 1),
    ]);
    let d = vec![bits(200.0), bits(10.0), bits(200.0), bits(200.0), bits(200.0)];
    let q = pop_images(&mut cache, &d, 2, 2);
    let got: Vec<&str> = q.iter().map(|i| i.country.as_str()).collect();
    assert_eq!(got, vec!["a", "b"]);
    assert_eq!(cache.len(), 1);
    let q = pop_images(&mut cache, &vec![bits(200.0)], 5, 1);
    assert_eq!(q.len(), 1);
    assert!(cache.is_empty());
}

#[test]
fn guesses_are_numbered_from_one() {
    let queue: VecDeque<GeoImage> = VecDeque::from(vec![image("a", 0), image("b", 0)]);
    let mut run = RoundRun::start(3, queue);
    let t = run.next_turn().unwrap();
    assert_eq!((t.guess_num, t.total, t.pause_first), (1, 3, false));
    let now = UtcInstant { secs: 5, nanos: 0 };
    let mut scores: StrMap<i64> = StrMap::new();
    scores.insert("@a:s".to_owned(), 3500);
    let saved = run.saved_state(42, &t, now, 90, &texts(&["@a:s"]), &scores);
    assert_eq!((saved.round_id, saved.guess_num, saved.total_guesses), (42, 1, 3));
    assert_eq!(saved.current_image.country, "a");
    assert_eq!(saved.remaining_images.len(), 1);
    assert_eq!(saved.round_scores.get("@a:s"), Some(&3500));
    assert!(saved.dm_participants.contains_key("@a:s"));
    let mut resumed = RoundRun::resume_active(&saved);
    let a = resumed.next_turn().unwrap();
    let b = run.next_turn().unwrap();
    assert_eq!((a.guess_num, a.total, a.pause_first), (2, 3, true));
    assert_eq!((a.guess_num, a.total, a.pause_first), (b.guess_num, b.total, b.pause_first));
    assert_eq!(a.image.country, b.image.country);
    assert!(run.next_turn().is_none() && resumed.next_turn().is_none());
    assert_eq!(
        replay_message(&saved),
        "⚠️ Bot restarted mid-round — replaying guess 1/3 with a fresh 1m 30s timer."
    );
    let mut joined = RoundRun::resume_join(VecDeque::from(vec![image("x", 0)]));
    assert_eq!(joined.next_turn().unwrap().guess_num, 1);
}

#[test]
fn slots_are_recorded() {
    let mut state = State::default();
    record_slot(&mut state, &None, DayNumber { day: 7 });
    assert_eq!(state.last_game_dates.len(), 0);
    record_slot(&mut state, &Some("12:00".to_owned()), DayNumber { day: 7 });
    assert_eq!(state.last_game_dates.get("12:00"), Some(&DayNumber { day: 7 }));
}

#[test]
fn rounds_run_to_the_end() {
    let mut step = begin_round(RoundKind::Manual, false, 3);
    let mut steps: Vec<RoundStep> = Vec::new();
    let mut turns: u64 = 2;
    for _ in 0..40 {
        steps.push(step);
        if matches!(step, RoundStep::Finished | RoundStep::Failed) {
            break;
        }
        let result = match step {
            RoundStep::TakeImages => StepResult::Count(2),
            RoundStep::PlayNext => {
                turns = turns.saturating_sub(1);
                StepResult::Count(turns)
            }
            _ => StepResult::Done,
        };
        step = next_step(RoundKind::Manual, 3, step, result);
    }
    assert_eq!(*steps.last().unwrap(), RoundStep::Finished);
    assert!(steps.contains(&RoundStep::OpenRound));
    let close = steps.iter().position(|s| *s == RoundStep::CloseRound).unwrap();
    let record = steps.iter().position(|s| *s == RoundStep::RecordScores).unwrap();
    let summary = steps.iter().position(|s| *s == RoundStep::Summarise).unwrap();
    assert!(close < record && record < summary);
}

#[test]
fn scores_are_recorded_only_of_a_closed_round() {
    let after = |kind, step| next_step(kind, 3, step, StepResult::Broken);
    for kind in [RoundKind::Manual, RoundKind::Scheduled] {
        assert_eq!(after(kind, RoundStep::CloseRound), RoundStep::Failed);
        assert_eq!(after(kind, RoundStep::RecordScores), RoundStep::Failed);
    }
    assert_eq!(after(RoundKind::ResumedJoin, RoundStep::CloseRound), RoundStep::RecordScores);
    assert_eq!(after(RoundKind::ResumedJoin, RoundStep::RecordScores), RoundStep::ForgetAndMark);
    assert_eq!(after(RoundKind::ResumedActive, RoundStep::CloseRound), RoundStep::RecordScores);
    assert_eq!(after(RoundKind::ResumedActive, RoundStep::RecordScores), RoundStep::Summarise);
}

#[test]
fn saved_players_with_valid_identifiers_play_on() {
    let mut players: StrMap<ActiveDmParticipant> = StrMap::new();
    for id in ["@b:example.com", "nobody", "@a:example.com", "@:", ""] {
        players.insert(id.to_owned(), ActiveDmParticipant::default());
    }
    let mut found = valid_players(&players);
    found.sort();
    let mut expected: Vec<String> = ["@b:example.com", "nobody", "@a:example.com", "@:", ""]
        .iter()
        .filter(|id| matrix_sdk::ruma::OwnedUserId::try_from(**id).is_ok())
        .map(|id| id.to_string())
        .collect();
    expected.sort();
    assert_eq!(found, expected);
    assert!(found.contains(&"@a:example.com".to_owned()));
    assert!(!found.contains(&"nobody".to_owned()));
}

#[test]
fn rounds_without_images_are_aborted() {
    let mut step = begin_round(RoundKind::Manual, false, 3);
    for _ in 0..40 {
        if matches!(step, RoundStep::Finished | RoundStep::Failed | RoundStep::AbortRound) {
            break;
        }
        let result = match step {
            RoundStep::TakeImages => StepResult::Count(0),
            _ => StepResult::Done,
        };
        step = next_step(RoundKind::Manual, 3, step, result);
    }
    assert_eq!(step, RoundStep::AbortRound);
}

// ── One guess ─────────────────────────────────────────────────────────────────

#[test]
fn a_guess_counts_down_its_time() {
    let total = 25;
    let mut stage = GuessStage::Uploading;
    stage = next_stage(total, stage, GuessEvent::Uploaded(2));
    assert!(matches!(stage, GuessStage::Posting { next: 0, total: 2 }));
    stage = next_stage(total, stage, GuessEvent::Done(true));
    stage = next_stage(total, stage, GuessEvent::Done(true));
    assert!(matches!(stage, GuessStage::Linking));
    stage = next_stage(total, stage, GuessEvent::Done(false));
    stage = next_stage(total, stage, GuessEvent::Done(true));
    let mut waited = 0;
    while let GuessStage::Counting { nap, .. } = stage {
        waited += nap;
        stage = next_stage(total, stage, GuessEvent::Done(false));
    }
    assert_eq!(waited, total);
    assert!(matches!(stage, GuessStage::Closing { all_in: false, .. }));
}

#[test]
fn a_guess_ends_when_everybody_has_answered() {
    let stage = GuessStage::Counting { web: false, remaining: 60, nap: 15 };
    let stage = next_stage(60, stage, GuessEvent::Done(true));
    assert!(matches!(stage, GuessStage::Closing { all_in: true, .. }));
}

#[test]
fn no_guess_without_its_reference_photo() {
    let stage = next_stage(60, GuessStage::Uploading, GuessEvent::Uploaded(3));
    let stage = next_stage(60, stage, GuessEvent::Broken);
    assert!(matches!(stage, GuessStage::Skipped));
    let stage = next_stage(60, GuessStage::Uploading, GuessEvent::Broken);
    assert!(matches!(stage, GuessStage::Skipped));
    let stage = next_stage(60, GuessStage::Uploading, GuessEvent::Uploaded(0));
    assert!(matches!(stage, GuessStage::Skipped));
}

#[test]
fn guess_messages() {
    assert_eq!(prompt_message(1, 3, 60, true), "🌍 Guess 1/3 | ⏳ 1m");
    assert_eq!(
        prompt_message(1, 3, 60, false),
        "🌍 Guess 1/3 | ⏳ 1m\n📍 Where is this? Type: **!guess** city, country, or lat,lon"
    );
    assert!(countdown_message(1, 3, 30, 60, true).contains("█████░░░░░"));
    assert!(all_in_message(2, 3).contains("2/3"));
    assert!(skipped_message(2, 3).contains("2/3"));
    assert_ne!(image_label(0, 3), image_label(1, 3));
}

#[test]
fn links_for_everybody() {
    let ids = texts(&["@a:s", "@b:s"]);
    assert_eq!(
        links_line(&ids, Some("https://g"), &texts(&["t1", "t2"])),
        "[🗺️ a](https://g/g/t1)  ·  [🗺️ b](https://g/g/t2)"
    );
    assert_eq!(
        links_line(&ids, None, &texts(&["en", "de"])),
        "[🗺️ a](https://polynomialdivision.github.io/geo-picker/?lang=en)  ·  [🗺️ b](https://polynomialdivision.github.io/geo-picker/?lang=de)"
    );
}

fn scored(user: &str, dist: f64, score: i64) -> ScoredGuess {
    ScoredGuess { user_id: user.to_owned(), guess: guess(1.0), dist: bits(dist), score }
}

#[test]
fn answers_are_ranked() {
    let order = |v: Vec<ScoredGuess>| -> Vec<String> {
        rank_guesses(v).iter().map(|s| s.user_id.clone()).collect()
    };
    let expected = texts(&["@d:s", "@b:s", "@a:s", "@c:s"]);
    let a = vec![
        scored("@a:s", 9.0, 100),
        scored("@b:s", 5.0, 100),
        scored("@c:s", 9.0, 100),
        scored("@d:s", 50.0, 200),
    ];
    assert_eq!(order(a), expected);
    let b = vec![
        scored("@d:s", 50.0, 200),
        scored("@c:s", 9.0, 100),
        scored("@a:s", 9.0, 100),
        scored("@b:s", 5.0, 100),
    ];
    assert_eq!(order(b), expected);
}

#[test]
fn points_add_up_over_a_round() {
    let mut scores: StrMap<i64> = StrMap::new();
    add_scores(&mut scores, &vec![scored("@a:s", 1.0, 10), scored("@b:s", 1.0, 20)]);
    add_scores(&mut scores, &vec![scored("@a:s", 1.0, 5)]);
    assert_eq!(scores.get("@a:s"), Some(&15));
    assert_eq!(scores.get("@b:s"), Some(&20));
}

#[test]
fn missed_guesses_leave_a_trace() {
    let mut game = ActiveGame::open("$e".to_owned(), bits(0.0), bits(0.0));
    game.record_free_guess("@b:s".to_owned(), guess(1.0), 0);
    let mut scores: StrMap<i64> = StrMap::new();
    scores.insert("@b:s".to_owned(), 7);
    scores.insert("@late:s".to_owned(), 9);
    let missed = missed_players(&texts(&["@a:s", "@b:s"]), &scores, &game);
    assert_eq!(missed, texts(&["@a:s", "@late:s"]));
    count_missed(&mut scores, &missed);
    assert_eq!(scores.get("@a:s"), Some(&0));
    assert_eq!(scores.get("@b:s"), Some(&7));
    assert_eq!(scores.get("@late:s"), Some(&9));
}

#[test]
fn everybody_in() {
    let mut game = ActiveGame::open("$e".to_owned(), bits(0.0), bits(0.0));
    assert!(!game.all_in(&vec![]));
    let players = texts(&["@a:s", "@b:s"]);
    game.record_free_guess("@a:s".to_owned(), guess(1.0), 0);
    assert!(!game.all_in(&players));
    game.record_free_guess("@b:s".to_owned(), guess(1.0), 0);
    assert!(game.all_in(&players));
}

// ── Results ───────────────────────────────────────────────────────────────────

fn row(user: &str, link: &str, score: i64) -> RevealRow {
    RevealRow {
        user_id: user.to_owned(),
        link: link.to_owned(),
        dist: "5 km".to_owned(),
        score,
    }
}

#[test]
fn the_reveal_lists_everybody() {
    let rows = vec![row("@a:s", "[Lima](u)", 4000), row("@b:s", "[Cusco](v)", 300)];
    assert_eq!(
        reveal_messages("Lima, Peru", &rows, "U", "S"),
        texts(&["📍 **Lima, Peru** [All guesses](U)\n\n🥇 @a:s · [Lima](u) · 5 km · 4000 pts\n🥈 @b:s · [Cusco](v) · 5 km · 300 pts"])
    );
    assert_eq!(
        reveal_messages("Peru", &vec![], "U", "S"),
        texts(&["📍 **Peru** [Map](U)\n\nNobody guessed."])
    );
}

#[test]
fn long_reveals_are_split() {
    let long = "x".repeat(20_000);
    let rows = vec![row("@a:s", &long, 1), row("@b:s", &long, 2)];
    let m = reveal_messages("Peru", &rows, "U", "S");
    assert_eq!(m.len(), 3);
    assert_eq!(m[0], "📍 **Peru** [All guesses](U)\n\n🥇 @a:s · 5 km · 1 pts\n🥈 @b:s · 5 km · 2 pts");
    assert!(m[1].contains(&long) && m[2].contains(&long));
    let url = "u".repeat(30_000);
    let m = reveal_messages("Peru", &vec![row("@a:s", "l", 1)], &url, "S");
    assert_eq!(m.len(), 2);
    assert!(m[0].starts_with("📍 **Peru** [All guesses](S)"));
}

#[test]
fn captions_and_colours() {
    assert_eq!(best_guess_caption("6 km"), "🥇 Best guess · 6 km away");
    assert_eq!(round_map_caption(3), "🗺️ All 3 guesses this round");
    assert_eq!(maps_to_post(0), (false, false));
    assert_eq!(maps_to_post(1), (true, false));
    assert_eq!(maps_to_post(2), (true, true));
    assert_eq!(
        legend(&texts(&["@a:s", "@b:s"])),
        "🔵 @a:s   🔴 @b:s   ⬛ actual location"
    );
    assert_eq!(player_color(0), (50, 120, 255, "🔵"));
    assert_eq!(player_color(8), player_color(0));
    assert_eq!(location_text(&image("Peru", 0)), "Peru");
    let mut img = image("Peru", 0);
    img.city = Some("Lima".to_owned());
    assert_eq!(location_text(&img), "Lima, Peru");
}

#[test]
fn round_results_in_order() {
    let mut scores: StrMap<i64> = StrMap::new();
    scores.insert("@a:s".to_owned(), 5000);
    scores.insert("@b:s".to_owned(), 7500);
    scores.insert("@c:s".to_owned(), 5000);
    let stats = vec![RoundStat {
        user_id: "@c:s".to_owned(),
        avg_distance: bits(10.0),
        avg_text: "10 km".to_owned(),
        best_text: "2 km".to_owned(),
    }];
    assert_eq!(
        round_results(&scores, &stats, 2),
        "🌍 **Round over!** 2 guess(es) · max 10000 pts\n\n🥇  1. @b:s : 3750 pts/guess\n      ████████░░  ⌀ n/a  🏅 n/a\n🥈  2. @c:s : 2500 pts/guess\n      █████░░░░░  ⌀ 10 km  🏅 2 km\n🥉  3. @a:s : 2500 pts/guess\n      █████░░░░░  ⌀ n/a  🏅 n/a"
    );
    assert_eq!(round_results(&StrMap::new(), &vec![], 2), "🌍 Round over · nobody played.");
}

#[test]
fn result_bars_agree_with_floating_point() {
    for n in [1_u32, 2, 3, 7] {
        for score in (0..=(5000 * n as i64)).step_by(13) {
            let mut scores: StrMap<i64> = StrMap::new();
            scores.insert("@a:s".to_owned(), score);
            let max = 5000 * n as i64;
            let filled = ((score as f64 / max as f64) * 10.0).round() as usize;
            let bar = format!("{}{}", "█".repeat(filled), "░".repeat(10 - filled));
            assert!(round_results(&scores, &vec![], n).contains(&bar), "{score}/{max}");
        }
    }
}

// ── Scheduling ────────────────────────────────────────────────────────────────

fn at(h: u32, m: u32) -> LocalClock {
    LocalClock { day: DayNumber { day: 738_000 }, secs: h * 3600 + m * 60 }
}

#[test]
fn games_are_planned_for_today_or_tomorrow() {
    let mut state = State::default();
    let s = schedule();
    let r = schedule_game(&mut state, &s, "!schedulegeo 15:00", at(10, 0));
    assert_eq!(r, "✅ GeoGuessr: today at 15:00 (join ~14:50)\nCancel: !cancelgeo 15:00");
    let r = schedule_game(&mut state, &s, "!schedulegeo 09:00 timeout=60 guesses=1", at(10, 0));
    assert_eq!(
        r,
        "✅ GeoGuessr: tomorrow at 09:00 (join ~08:50), timeout 1m, 1 guess\nCancel: !cancelgeo 09:00"
    );
    assert_eq!(state.scheduled_once.len(), 2);
    assert_eq!(state.scheduled_once[0].date, DayNumber { day: 738_000 });
    assert_eq!(state.scheduled_once[1].date, DayNumber { day: 738_001 });
    assert_eq!(state.scheduled_once[1].guesses_per_round, Some(1));
    let r = schedule_game(&mut state, &s, "!schedulegeo 15:00", at(10, 0));
    assert!(r.starts_with("⚠️ A game at 15:00 on "), "{r}");
    assert_eq!(state.scheduled_once.len(), 2);
}

#[test]
fn a_join_window_that_has_begun_is_trimmed() {
    let mut state = State::default();
    let r = schedule_game(&mut state, &schedule(), "!schedulegeo 15:00", at(14, 55));
    assert_eq!(
        r,
        "✅ GeoGuessr: today at 15:00 (join ~14:56) ⚠️ join window trimmed to 4m (was 10m)\nCancel: !cancelgeo 15:00"
    );
    assert_eq!(state.scheduled_once[0].reminder_before_secs, Some(240));
}

#[test]
fn bad_schedules_are_refused() {
    let mut state = State::default();
    let s = schedule();
    let mut ask = |body: &str| schedule_game(&mut state, &s, body, at(10, 0));
    assert_eq!(
        ask("!schedulegeo"),
        "No one-time games scheduled.\nUsage: !schedulegeo HH:MM [reminder=<secs>] [timeout=<secs>]"
    );
    assert_eq!(
        ask("!schedulegeo 25:00"),
        "❌ Invalid time \"25:00\" · use HH:MM (e.g. 15:00)"
    );
    assert_eq!(
        ask("!schedulegeo 15:00 reminder=x"),
        "❌ Invalid reminder \"x\" · must be seconds."
    );
    assert_eq!(
        ask("!schedulegeo 15:00 timeout="),
        "❌ Invalid timeout \"\" · must be seconds."
    );
    assert_eq!(ask("!schedulegeo 15:00 guesses=0"), "❌ guesses must be at least 1.");
    assert_eq!(
        ask("!schedulegeo 15:00 guesses=-1"),
        "❌ Invalid guesses \"-1\" · must be a number."
    );
    assert_eq!(
        ask("!schedulegeo 15:00 what"),
        "❌ Unknown argument \"what\"\nUsage: !schedulegeo HH:MM [reminder=N] [timeout=N] [guesses=N]"
    );
    assert_eq!(
        ask("!schedulegeo 01:00 reminder=7200"),
        "❌ reminder=7200s (~2h 0m) is longer than the time from midnight to 01:00 — the join window would open at 23:00, after the game itself. (Did you mean reminder=7?)"
    );
    assert!(state.scheduled_once.is_empty());
}

#[test]
fn planned_games_are_listed_and_cancelled() {
    let mut state = State::default();
    let s = schedule();
    schedule_game(&mut state, &s, "!schedulegeo 15:00 reminder=60 timeout=30 guesses=2", at(10, 0));
    let list = schedule_game(&mut state, &s, "!schedulegeo", at(10, 0));
    assert!(list.starts_with("📅 Pending one-time games:\n  • 15:00 on "), "{list}");
    assert!(list.ends_with(", reminder 1m, timeout 30s, 2 guesses"), "{list}");
    assert_eq!(
        cancel_scheduled(&mut state, "16:00"),
        "⚠️ No scheduled game found for 16:00."
    );
    assert_eq!(
        cancel_scheduled(&mut state, "noon"),
        "❌ Invalid time \"noon\" · use HH:MM (e.g. 15:00)"
    );
    assert_eq!(
        cancel_scheduled(&mut state, "15:00"),
        "✅ Cancelled 1 scheduled game(s) at 15:00."
    );
    assert!(state.scheduled_once.is_empty());
    assert_eq!(cancel_arg("!cancelgeo  \"15:00\" "), "15:00");
    assert_eq!(cancel_arg("!cancelgeo"), "");
}

#[test]
fn schedule_overrides_are_set_and_cleared() {
    let mut state = State::default();
    let s = schedule();
    assert_eq!(
        set_schedule(&mut state, &s, "!setschedule"),
        "📅 Schedule overrides:\n· guesses: 3 (config)\n· photos/guess: 2 (config)\n· timeout: 1m 30s (config)\nChange: !setschedule [guesses=N] [photos=N] [timeout=N] | !setschedule reset"
    );
    assert_eq!(
        set_schedule(&mut state, &s, "!setschedule guesses=1 photos=1 timeout=60"),
        "✅ Schedule updated: 1 guess, 1 photo/guess, timeout 1m"
    );
    assert_eq!(
        state.schedule_overrides,
        ScheduleOverrides {
            guesses_per_round: Some(1),
            answer_timeout_secs: Some(60),
            photos_per_location: Some(1),
        }
    );
    assert_eq!(
        set_schedule(&mut state, &s, "!setschedule photos=0"),
        "❌ photos must be at least 1."
    );
    assert_eq!(
        set_schedule(&mut state, &s, "!setschedule timeout=1 bogus"),
        "❌ Unknown argument \"bogus\"\nUsage: !setschedule [guesses=N] [photos=N] [timeout=N] | reset"
    );
    assert_eq!(state.schedule_overrides.answer_timeout_secs, Some(60));
    assert_eq!(
        set_schedule(&mut state, &s, "!setschedule reset"),
        "✅ Schedule overrides cleared — using config defaults."
    );
    assert_eq!(state.schedule_overrides, ScheduleOverrides::default());
}

#[test]
fn join_windows_open_before_the_game() {
    assert_eq!(opening_second(43_200, 600), 42_600);
    assert_eq!(opening_second(60, 120), 86_340);
}

#[test]
fn a_slot_fires_once_a_day() {
    let mut state = State::default();
    let mut tick = Tick::new(at(11, 50));
    assert!(matches!(tick.consider_slot(&mut state, "12:00", 600, false), SlotOutcome::Fire));
    assert!(matches!(tick.consider_slot(&mut state, "12:00", 600, false), SlotOutcome::Played));
    let mut next = Tick::new(at(11, 50));
    assert!(matches!(next.consider_slot(&mut state, "12:00", 600, false), SlotOutcome::Played));
    let mut other = Tick::new(at(11, 51));
    assert!(matches!(other.consider_slot(&mut state, "12:00", 600, false), SlotOutcome::NotNow));
    assert!(matches!(other.consider_slot(&mut state, "noon", 600, false), SlotOutcome::Invalid));
    let mut fresh = State::default();
    let mut busy = Tick::new(at(11, 50));
    assert!(matches!(busy.consider_slot(&mut fresh, "12:00", 600, true), SlotOutcome::Busy));
}

#[test]
fn one_round_per_tick() {
    let mut state = State::default();
    schedule_game(&mut state, &schedule(), "!schedulegeo 12:00", at(10, 0));
    let entry = state.scheduled_once[0].clone();
    let mut tick = Tick::new(at(11, 50));
    assert!(matches!(tick.consider_slot(&mut state, "12:00", 600, false), SlotOutcome::Fire));
    assert!(matches!(
        tick.consider_slot(&mut state, "12:00:0", 600, false),
        SlotOutcome::Invalid | SlotOutcome::Taken
    ));
    assert!(matches!(tick.consider_once(&mut state, &entry, 600, false), OnceOutcome::Taken));
    assert!(state.scheduled_once.is_empty());
}

#[test]
fn one_time_games_fire_with_their_overrides() {
    let mut state = State::default();
    schedule_game(&mut state, &schedule(), "!schedulegeo 12:00 reminder=60 guesses=4", at(10, 0));
    let entry = state.scheduled_once[0].clone();
    let mut early = Tick::new(at(11, 50));
    assert!(matches!(early.consider_once(&mut state, &entry, 600, false), OnceOutcome::NotNow));
    let mut tick = Tick::new(at(11, 59));
    match tick.consider_once(&mut state, &entry, 600, false) {
        OnceOutcome::Fire(o) => {
            assert_eq!(o.reminder_before_secs, Some(60));
            assert_eq!(o.guesses_per_round, Some(4));
        }
        _ => panic!("did not fire"),
    }
    assert!(state.scheduled_once.is_empty());
    let mut later = Tick::new(LocalClock { day: DayNumber { day: 738_001 }, secs: 0 });
    assert!(matches!(later.consider_once(&mut state, &entry, 600, false), OnceOutcome::OtherDay));
}

// ── Commands ──────────────────────────────────────────────────────────────────

#[test]
fn commands_are_known_by_their_first_word() {
    assert_eq!(parse_command("!StartGeo now"), Command::Start);
    assert_eq!(parse_command("!scores90"), Command::Scores90);
    assert_eq!(parse_command("!nonsense"), Command::Unknown);
    assert_eq!(parse_command(""), Command::Unknown);
    assert_eq!(command_of("!help"), Command::Help);
    let admins = texts(&["@admin:s"]);
    assert!(may_run(Command::Start, &admins, "@admin:s"));
    assert!(!may_run(Command::Start, &admins, "@x:s"));
    assert!(may_run(Command::Scores, &admins, "@x:s"));
    assert_eq!(screen("!startgeo", &admins, "@admin:s"), Admission::Run(Command::Start));
    assert_eq!(screen("!STARTGEO", &admins, "@x:s"), Admission::Refused);
    assert_eq!(screen("!scores", &admins, "@x:s"), Admission::Run(Command::Scores));
    assert_eq!(screen("!nonsense", &admins, "@admin:s"), Admission::Ignored);
}

#[test]
fn starting_by_hand() {
    let none = ScheduleOverrides::default();
    assert_eq!(start_message(true, &none, &schedule()), "⚠️ A game is already in progress!");
    let text = start_message(false, &none, &schedule());
    assert!(text.starts_with("🌍 Starting! 3 guess(es) · "), "{text}");
}

#[test]
fn rounds_are_cancelled() {
    let mut state = State::default();
    assert_eq!(cancel_round(&mut state, false), (None, "⚠️ No active round to cancel."));
    assert_eq!(cancel_round(&mut state, true), (None, "🛑 Round cancelled."));
    let mut run = RoundRun::start(1, VecDeque::from(vec![image("a", 0)]));
    let t = run.next_turn().unwrap();
    let now = UtcInstant { secs: 5, nanos: 0 };
    let window = || PendingJoin {
        event_id: "$j".to_owned(),
        join_emoji: "x".to_owned(),
        slot: None,
        game_at_utc: now,
        answer_timeout_secs: 1,
    };
    state.keep_round(run.saved_state(42, &t, now, 90, &vec![], &StrMap::new()));
    state.open_join(window());
    assert_eq!(cancel_round(&mut state, false), (Some(42), "🛑 Round cancelled."));
    assert!(state.active_round.is_none() && state.pending_join.is_none());
    state.open_join(window());
    assert_eq!(cancel_round(&mut state, false), (None, "🛑 Round cancelled."));
    assert!(state.pending_join.is_none());
}

#[test]
fn join_window_and_round_are_saved_and_forgotten() {
    let mut state = State::default();
    let now = UtcInstant { secs: 5, nanos: 0 };
    let mut run = RoundRun::start(1, VecDeque::from(vec![image("a", 0)]));
    let t = run.next_turn().unwrap();
    state.open_join(PendingJoin {
        event_id: "$j".to_owned(),
        join_emoji: "x".to_owned(),
        slot: Some("12:00".to_owned()),
        game_at_utc: now,
        answer_timeout_secs: 1,
    });
    state.keep_round(run.saved_state(7, &t, now, 90, &vec![], &StrMap::new()));
    assert_eq!(state.pending_join.as_ref().map(|p| p.event_id.as_str()), Some("$j"));
    assert_eq!(state.active_round.as_ref().map(|r| r.round_id), Some(7));
    state.close_join();
    assert!(state.pending_join.is_none() && state.active_round.is_some());
    state.forget_round();
    assert!(state.active_round.is_none());
}

#[test]
fn languages_are_shown_and_set() {
    let mut state = State::default();
    assert_eq!(
        set_language(&mut state, "@a:s", "!lang"),
        "Your language: **en** (English)\nChange with: !lang <flag>  or  !lang <code>  (e.g. !lang 🇩🇪  or  !lang de)"
    );
    assert_eq!(
        set_language(&mut state, "@a:s", "!lang 🇩🇪"),
        "Language set to **de** (German) · your guess locations will now appear in German"
    );
    assert_eq!(state.language_of("@a:s"), "de");
    assert!(set_language(&mut state, "@a:s", "!lang FR").starts_with("Language set to **fr**"));
    assert_eq!(
        set_language(&mut state, "@a:s", "!lang klingon"),
        "Unknown language «klingon»\nUse !lang <flag>  or  !lang <code>  (e.g. !lang 🇩🇪  or  !lang de)"
    );
    assert_eq!(state.language_of("@a:s"), "fr");
    assert_eq!(state.language_of("@b:s"), "en");
}

#[test]
fn information_and_help() {
    let text = game_info(&schedule());
    assert!(text.starts_with("🌍 **GeoGuessr**\n🕐 12:00, 18:30 (Europe/Berlin)\n⏰ Join window 10m early · react with 👍 to play\n📍 3 guesses · "), "{text}");
    assert!(text.contains("\n📸 2 photos per guess\n\n🗺️ Free guess"), "{text}");
    assert!(help_text().starts_with("🌍 **GeoGuessr** commands:\n\n  !gameinfo"));
    assert_eq!(prefetch_message(2, 7), "✅ Image cache: 2 → 7");
    assert!(reset_confirmed("!resetstats confirm"));
    assert!(!reset_confirmed("!resetstats"));
    assert_eq!(argument("!lang  de  x"), "de");
}

#[test]
fn participants_are_sorted_by_identifier() {
    let ids: Vec<String> =
        ["@c:s", "@a:s", "@b:s", "@a:s"].iter().map(|s| (*s).to_owned()).collect();
    assert_eq!(sort_participants(ids), vec!["@a:s", "@a:s", "@b:s", "@c:s"]);
}
