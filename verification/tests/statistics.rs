//! Leaderboards and personal statistics.

use geoguessr_bot::binary64;
use geoguessr_bot::bits::F64Bits;
use geoguessr_bot::stats::build_alltime_leaderboard;
use geoguessr_bot::stats::build_rolling_leaderboard;
use geoguessr_bot::stats::confidence_adjusted_score;
use geoguessr_bot::stats::countries_reply;
use geoguessr_bot::stats::fastest_reply;
use geoguessr_bot::stats::format_leaderboard;
use geoguessr_bot::stats::my_stats_reply;
use geoguessr_bot::stats::rank_of;
use geoguessr_bot::stats::reset_reply;
use geoguessr_bot::stats::score_confidence;
use geoguessr_bot::stats::score_global_mean;
use geoguessr_bot::stats::scores_reply;
use geoguessr_bot::stats::sort_score_leaderboard;
use geoguessr_bot::stats::tally;
use geoguessr_bot::stats::unreadable_reply;
use geoguessr_bot::stats::user_stats;
use geoguessr_bot::stats::CountryStat;
use geoguessr_bot::stats::Question;
use geoguessr_bot::stats::ScoreLeaderboardEntry;
use geoguessr_bot::stats::SpeedEntry;
use geoguessr_bot::stats::UserCountryStat;
use geoguessr_bot::stats::UserStatsRow;

fn score_entry(user_id: &str, total_score: i64, guesses_played: i64) -> ScoreLeaderboardEntry {
    ScoreLeaderboardEntry {
        user_id: user_id.to_owned(),
        total_score,
        rounds_played: guesses_played,
        guesses_played,
        guesses_answered: guesses_played,
        avg_distance: "1000 km".to_owned(),
        best_distance: "100 km".to_owned(),
    }
}

fn float(x: F64Bits) -> f64 {
    f64::from_bits(x.bits)
}

fn bits(x: f64) -> F64Bits {
    F64Bits { bits: x.to_bits() }
}

#[test]
fn score_leaderboard_sorts_by_confidence_adjusted_score() {
    let board = vec![
        score_entry("@high-total-low-average:example.com", 100_000, 100),
        score_entry("@lower-total-high-average:example.com", 50_000, 10),
    ];
    let global_mean = score_global_mean(&board);

    let board = sort_score_leaderboard(board, global_mean);

    assert_eq!(board[0].entry.user_id, "@lower-total-high-average:example.com");
    assert!(
        float(confidence_adjusted_score(&board[0].entry, global_mean))
            > float(confidence_adjusted_score(&board[1].entry, global_mean))
    );
}

#[test]
fn leaderboard_bar_reflects_confidence_not_adjusted_score() {
    let text = format_leaderboard(
        vec![score_entry("@twenty-guesses:example.com", 100_000, 20)],
        "Test Leaderboard",
        1,
    );

    assert!(text.contains("████░░░░░░ 🔒40%"));
    assert!(text.contains("⭐5000"));
}

#[test]
fn the_whole_leaderboard() {
    let text = format_leaderboard(
        vec![
            score_entry("@a:s", 9_000, 3),
            score_entry("@b:s", 0, 0),
            score_entry("@c:s", 4_000, 1),
            score_entry("@d:s", 5, 2),
        ],
        "All",
        7,
    );
    let lines: Vec<&str> = text.split('\n').collect();
    assert_eq!(lines[0], "🏆 **All** · 7 rounds");
    assert_eq!(lines[1], "⭐ sorted by confidence-adjusted pts/guess");
    assert_eq!(lines[2], "");
    // The mean is 13005 / 6.
    assert_eq!(lines[3], "🥇 1. @a:s");
    assert_eq!(lines[4], "   █░░░░░░░░░ 🔒9% · ⭐2243 · 🎯3000/g · 📍1000 km · 🏅100 km · 🎮3");
    assert_eq!(lines[5], "🥈 2. @c:s");
    assert_eq!(lines[6], "   ░░░░░░░░░░ 🔒3% · ⭐2227 · 🎯4000/g · 📍1000 km · 🏅100 km · 🎮1");
    assert_eq!(lines[7], "🥉 3. @b:s");
    assert_eq!(lines[8], "   ░░░░░░░░░░ 🔒0% · ⭐2168 · 🎯0/g · 📍n/a · 🏅n/a · 🎮0");
    assert_eq!(lines[9], "▪️ 4. @d:s");
    assert_eq!(lines.len(), 11);
}

#[test]
fn ties_go_to_more_guesses_then_to_the_name() {
    let board = vec![
        score_entry("@b:s", 100, 1),
        score_entry("@a:s", 100, 1),
        score_entry("@c:s", 200, 2),
    ];
    let mean = score_global_mean(&board);
    let names: Vec<String> = sort_score_leaderboard(board, mean)
        .iter()
        .map(|s| s.entry.user_id.clone())
        .collect();
    assert_eq!(names, vec!["@c:s".to_owned(), "@a:s".to_owned(), "@b:s".to_owned()]);
}

#[test]
fn the_mean_before_the_first_guess() {
    assert_eq!(float(score_global_mean(&vec![])), 2000.0);
    assert_eq!(
        float(score_global_mean(&vec![score_entry("@a:s", 50, 4), score_entry("@b:s", 10, 0)])),
        15.0
    );
}

/// Numbers without an obvious pattern.
struct Numbers {
    seed: u64,
}

impl Numbers {
    fn next(&mut self) -> u64 {
        self.seed = self.seed.wrapping_mul(6364136223846793005).wrapping_add(1442695040888963407);
        let mixed = self.seed ^ (self.seed >> 29);
        mixed.wrapping_mul(0x9e37_79b9_7f4a_7c15) ^ (mixed >> 32)
    }

    /// A number of any length in bits.
    fn number(&mut self) -> i64 {
        let shift = self.next() % 64;
        (self.next() >> shift) as i64
    }
}

/// The rating as the machine computes it.
fn rated(e: &ScoreLeaderboardEntry, mean: f64) -> f64 {
    let n = e.guesses_played as f64;
    let avg = if n > 0.0 { e.total_score as f64 / n } else { 0.0 };
    (30.0 * mean + n * avg) / (30.0 + n)
}

#[test]
fn operations_agree_with_the_machine_to_the_last_bit() {
    let mut numbers = Numbers { seed: 1 };
    for _ in 0..50_000 {
        let (a, b) = (numbers.number(), numbers.number());
        let (x, y) = (binary64::from_int(a), binary64::from_int(b));
        assert_eq!(float(x), a as f64, "{a}");
        assert_eq!(float(binary64::plus(x, y)), a as f64 + b as f64, "{a} {b}");
        assert_eq!(float(binary64::multiply(x, y)), a as f64 * b as f64, "{a} {b}");
        if b > 0 {
            let q = binary64::divide(x, y);
            let p = a as f64 / b as f64;
            assert_eq!(float(q), p, "{a} {b}");
            assert_eq!(binary64::round_to_int(q), p.round() as i64, "{a} {b}");
            assert_eq!(float(binary64::plus(q, x)), p + a as f64, "{a} {b}");
            assert_eq!(float(binary64::plus(q, y)), p + b as f64, "{a} {b}");
            assert_eq!(float(binary64::multiply(q, y)), p * b as f64, "{a} {b}");
        }
    }
}

#[test]
fn sums_of_unlike_sizes_agree_with_the_machine() {
    let powers: Vec<f64> = (0..125).map(|e| (2.0_f64).powi(e - 62)).collect();
    for &p in &powers {
        for &q in &powers {
            for sign in [1.0, -1.0] {
                for odd in [1.0, 1.0 + f64::EPSILON, 2.0 - f64::EPSILON] {
                    let (x, y) = (p * odd, sign * q);
                    assert_eq!(float(binary64::plus(bits(x), bits(y))), x + y, "{x} {y}");
                    assert_eq!(float(binary64::plus(bits(y), bits(x))), x + y, "{x} {y}");
                }
            }
        }
    }
}

#[test]
fn rounding_to_integers_agrees_with_the_machine() {
    let mut x = 1e-30_f64;
    while x < 1e30 {
        for v in [x, -x, x.floor() + 0.5, -x.floor() - 0.5] {
            assert_eq!(binary64::round_to_int(bits(v)), v.round() as i64, "{v}");
        }
        x *= 1.0437;
    }
    for v in [0.0, -0.0, 0.5, -0.5, 1.5, 2.5, 0.49999999999999994, f64::MAX, f64::MIN, 5e-324] {
        assert_eq!(binary64::round_to_int(bits(v)), v.round() as i64, "{v}");
    }
    for v in [i64::MAX as f64, i64::MIN as f64, 9223372036854774784.0] {
        assert_eq!(binary64::round_to_int(bits(v)), v.round() as i64, "{v}");
    }
}

#[test]
fn ratings_agree_with_the_machine_to_the_last_bit() {
    let mut numbers = Numbers { seed: 12345 };
    for i in 0..20_000 {
        let board: Vec<ScoreLeaderboardEntry> = (0..3)
            .map(|k| {
                if i % 2 == 0 {
                    let n = (numbers.next() % 500) as i64;
                    score_entry("@a:s", (numbers.next() % 5001) as i64 * n, n)
                } else {
                    score_entry("@a:s", numbers.number() >> 2, (numbers.number() >> (2 + k)).abs())
                }
            })
            .collect();
        let points: i64 = board.iter().map(|e| e.total_score).sum();
        let guesses: i64 = board.iter().map(|e| e.guesses_played).sum();
        let expected = if guesses > 0 { points as f64 / guesses as f64 } else { 2000.0 };
        let mean = score_global_mean(&board);
        assert_eq!(float(mean), expected);
        for e in &board {
            let rating = confidence_adjusted_score(e, mean);
            assert_eq!(float(rating), rated(e, expected), "{} {}", e.total_score, e.guesses_played);
        }
    }
}

#[test]
fn confidence_agrees_with_the_machine() {
    for n in 0..20_000_i64 {
        let e = score_entry("@a:s", 0, n);
        let c = if n > 0 { n as f64 / (n as f64 + 30.0) } else { 0.0 };
        assert_eq!(float(score_confidence(&e)), c, "{n}");
        let text = format_leaderboard(vec![e], "x", 1);
        let shown = format!(" 🔒{}% ", (c * 100.0).round() as i64);
        assert!(text.contains(&shown), "{n}: {text}");
        let filled = ((c * 10.0).round() as usize).min(10);
        let bar = format!("{}{}", "█".repeat(filled), "░".repeat(10 - filled));
        assert!(text.contains(&bar), "{n}: {text}");
    }
}

#[test]
fn rounded_ratings_decide_before_guesses() {
    // All play at three points in seven guesses. The ratings of those with 14 and 21
    // guesses are rounded to the value below.
    let board: Vec<ScoreLeaderboardEntry> = [1, 2, 3, 5, 7, 11]
        .iter()
        .map(|t| score_entry(&format!("@{t}:s"), 3 * t, 7 * t))
        .collect();
    let mean = score_global_mean(&board);
    assert!(rated(&board[1], float(mean)) < rated(&board[0], float(mean)));
    let ranked: Vec<i64> = sort_score_leaderboard(board, mean)
        .iter()
        .map(|s| s.entry.guesses_played)
        .collect();
    assert_eq!(ranked, vec![77, 49, 35, 7, 21, 14]);
}

#[test]
fn more_points_never_rate_lower() {
    let mean = score_global_mean(&vec![score_entry("@a:s", 1_000, 3)]);
    let mut last = f64::MIN;
    for points in 0..5_000 {
        let rating = float(confidence_adjusted_score(&score_entry("@a:s", points, 7), mean));
        assert!(rating >= last);
        last = rating;
    }
}

#[test]
fn the_rating_lies_between_own_average_and_mean() {
    let mean = score_global_mean(&vec![score_entry("@a:s", 1000, 1)]);
    let e = score_entry("@a:s", 30 * 3000, 30);
    assert_eq!(float(confidence_adjusted_score(&e, mean)), 2000.0);
    let e = score_entry("@a:s", 0, 30);
    assert_eq!(float(confidence_adjusted_score(&e, mean)), 500.0);
}

#[test]
fn large_scores_do_not_overflow() {
    let m = score_global_mean(&vec![score_entry("@a:s", i64::MAX, i64::MAX)]);
    assert_eq!(float(m), 1.0);
    let e = score_entry("@a:s", i64::MIN, i64::MAX);
    assert_eq!(float(confidence_adjusted_score(&e, m)), rated(&e, 1.0));
    assert_eq!(binary64::round_to_int(confidence_adjusted_score(&e, m)), -1);
    let board = vec![score_entry("@a:s", i64::MIN, i64::MAX), score_entry("@b:s", i64::MAX, 0)];
    let ranked = sort_score_leaderboard(board, m);
    assert_eq!(ranked[0].entry.user_id, "@b:s");
}

#[test]
fn leaderboards_have_their_headings() {
    let board = || vec![score_entry("@a:s", 10, 1)];
    assert!(build_alltime_leaderboard(vec![], 0).is_none());
    assert!(build_rolling_leaderboard(vec![], 0).is_none());
    assert!(build_alltime_leaderboard(board(), 3)
        .unwrap()
        .starts_with("🏆 **All-time Leaderboard** · 3 rounds\n"));
    assert!(build_rolling_leaderboard(board(), 3)
        .unwrap()
        .starts_with("🏆 **Leaderboard (last 90 days)** · 3 rounds\n"));
    assert_eq!(scores_reply(None, false), "No scores yet — no games have been played.");
    assert_eq!(scores_reply(None, true), "No scores in the last 90 days.");
    assert_eq!(scores_reply(Some("x".to_owned()), true), "x");
}

#[test]
fn own_statistics() {
    let row = user_stats(Some(7), Some(9), 3);
    assert_eq!(
        row,
        Some(UserStatsRow { total_correct: 7, total_questions: 9, rounds_played: 3 })
    );
    assert_eq!(user_stats(None, None, 0), None);
    assert_eq!(
        user_stats(None, None, 1),
        Some(UserStatsRow { total_correct: 0, total_questions: 0, rounds_played: 1 })
    );
    let stat = |c: &str, answered, correct| UserCountryStat {
        country: c.to_owned(),
        answered,
        correct,
    };
    let countries = vec![stat("Peru", 3, 3), stat("Chile", 2, 1), stat("Kenya", 3, 1)];
    assert_eq!(
        my_stats_reply(row, Some(2), 5, &countries),
        "🌍 **Your stats** · 7/9 correct (77%) · 3 round(s) · rank #2 of 5\n\
         🏆 Best: Peru (100%)\n\
         😬 Worst: Kenya (33%)"
    );
    assert_eq!(
        my_stats_reply(user_stats(None, None, 1), None, 0, &vec![]),
        "🌍 **Your stats** · 0/0 correct (0%) · 1 round(s)"
    );
    assert_eq!(my_stats_reply(None, None, 0, &vec![]), "No rounds played yet.");
}

#[test]
fn places_count_from_one() {
    let board = vec![score_entry("@a:s", 10, 10), score_entry("@b:s", 20, 10)];
    let mean = score_global_mean(&board);
    let ranked = sort_score_leaderboard(board, mean);
    assert_eq!(rank_of(&ranked, "@b:s"), Some(1));
    assert_eq!(rank_of(&ranked, "@a:s"), Some(2));
    assert_eq!(rank_of(&ranked, "@c:s"), None);
}

#[test]
fn answers_are_tallied() {
    assert_eq!(tally(&vec![true, false, true]), (2, 3));
    assert_eq!(tally(&vec![]), (0, 0));
}

#[test]
fn countries_with_bars() {
    let stat = |c: &str, asked, answers, correct| CountryStat {
        country: c.to_owned(),
        region: "Asia".to_owned(),
        times_asked: asked,
        total_answers: answers,
        correct_answers: correct,
    };
    assert_eq!(
        countries_reply(&vec![stat("Japan", 12, 8, 8), stat("Iran", 5, 0, 0)]),
        "🗺️ **Countries** · 17 guesses\n\n\
         ██████████  12x  100% ✓  Japan (Asia)\n\
         ████░░░░░░   5x    0% ✓  Iran (Asia)"
    );
    assert_eq!(countries_reply(&vec![]), "No guesses yet.");
}

#[test]
fn fastest_players() {
    let e = |u: &str, avg: &str, n| SpeedEntry {
        user_id: u.to_owned(),
        avg_secs: avg.to_owned(),
        sample_count: n,
    };
    let board = vec![
        e("@a:s", "3.5", 4),
        e("@b:s", "4.0", 3),
        e("@c:s", "5.1", 3),
        e("@d:s", "9.9", 9),
    ];
    let expected = [
        "⚡ **Speed** · fastest correct answers (min. 3 samples)",
        "",
        "🥇  1. @a:s : 3.5s avg · 4 correct",
        "🥈  2. @b:s : 4.0s avg · 3 correct",
        "🥉  3. @c:s : 5.1s avg · 3 correct",
        "    4. @d:s : 9.9s avg · 9 correct",
    ];
    assert_eq!(fastest_reply(&board), expected.join("\n"));
    assert_eq!(
        fastest_reply(&vec![]),
        "Not enough data yet · need at least 3 correct answers per player."
    );
}

#[test]
fn failures_in_words() {
    assert_eq!(unreadable_reply(Question::Own), "❌ Could not read stats from database.");
    assert_eq!(
        unreadable_reply(Question::Countries),
        "❌ Could not read country stats from database."
    );
    assert_eq!(unreadable_reply(Question::Speed), "❌ Could not read speed stats from database.");
    assert_eq!(
        reset_reply(None),
        "⚠️ This deletes ALL game history.\nConfirm: !resetstats confirm"
    );
    assert_eq!(reset_reply(Some(true)), "✅ All stats have been reset.");
    assert_eq!(reset_reply(Some(false)), "❌ Reset failed — check the logs.");
}
