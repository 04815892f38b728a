//! Leaderboards and personal statistics.
//!
//! The leaderboard ranks by points per guess, drawn towards the mean of all
//! players as long as a player has few guesses. The ratings are binary64 values,
//! each step of their computation rounded to the nearest.

use vstd::prelude::*;

use crate::binary64;
use crate::binary64::float_of;
use crate::binary64::units;
use crate::bits::F64Bits;
use crate::clock;
use crate::results;
use crate::sort;
use crate::sort::Ranked;
use crate::text;

verus! {

// ── Leaderboard ──────────────────────────────────────────────────────────────

/// What the database knows of one player's score.
pub struct ScoreLeaderboardEntry {
    pub user_id: String,
    pub total_score: i64,
    pub rounds_played: i64,
    /// Guesses that count for the player, missed ones with 0 points among them, so
    /// that nobody gains by skipping hard guesses.
    pub guesses_played: i64,
    /// Of these, how many the player answered.
    pub guesses_answered: i64,
    /// Average distance over the answered guesses, as it is shown.
    pub avg_distance: String,
    /// Distance of the best guess, as it is shown.
    pub best_distance: String,
}

/// All points of the first `k` players.
pub open spec fn points_upto(board: Seq<ScoreLeaderboardEntry>, k: int) -> int
    decreases k,
{
    if k <= 0 {
        0
    } else {
        points_upto(board, k - 1) + board[k - 1].total_score
    }
}

/// All guesses of the first `k` players.
pub open spec fn guesses_upto(board: Seq<ScoreLeaderboardEntry>, k: int) -> int
    decreases k,
{
    if k <= 0 {
        0
    } else {
        guesses_upto(board, k - 1) + board[k - 1].guesses_played
    }
}

/// Nobody has a negative number of guesses, and the sums over the board fit into
/// 64 bits as they are formed.
pub open spec fn countable(board: Seq<ScoreLeaderboardEntry>) -> bool {
    &&& forall|i: int| 0 <= i < board.len() ==> (#[trigger] board[i]).guesses_played >= 0
    &&& forall|k: int|
        0 <= k <= board.len() ==> i64::MIN <= #[trigger] points_upto(board, k) <= i64::MAX
    &&& forall|k: int| 0 <= k <= board.len() ==> #[trigger] guesses_upto(board, k) <= i64::MAX
}

/// How many guesses at the mean everybody starts with.
pub const PRIOR_GUESSES: i64 = 30;

/// The mean while nobody has played.
pub const FALLBACK_MEAN: i64 = 2000;

/// The mean points per guess over all players.
pub open spec fn mean_of(board: Seq<ScoreLeaderboardEntry>) -> int {
    if guesses_upto(board, board.len() as int) > 0 {
        binary64::quotient(
            float_of(points_upto(board, board.len() as int)),
            float_of(guesses_upto(board, board.len() as int)),
        )
    } else {
        float_of(FALLBACK_MEAN as int)
    }
}

/// Whether a value may be a mean of points: 0, or of a size that whole numbers of
/// 64 bits and their quotients can have.
pub open spec fn may_be_mean(m: F64Bits) -> bool {
    binary64::sized(m, 800, 1300)
}

/// The mean points per guess over all players.
pub fn score_global_mean(board: &Vec<ScoreLeaderboardEntry>) -> (m: F64Bits)
    requires
        countable(board@),
    ensures
        units(m) == mean_of(board@),
        may_be_mean(m),
        guesses_upto(board@, board@.len() as int) <= 0 ==> units(m) == float_of(2000),
        guesses_upto(board@, board@.len() as int) > 0 ==> units(m) == binary64::quotient(
            float_of(points_upto(board@, board@.len() as int)),
            float_of(guesses_upto(board@, board@.len() as int)),
        ),
{
    let mut points: i64 = 0;
    let mut guesses: i64 = 0;
    let mut i: usize = 0;
    while i < board.len()
        invariant
            i <= board@.len(),
            countable(board@),
            points == points_upto(board@, i as int),
            guesses == guesses_upto(board@, i as int),
            guesses >= 0,
        decreases board@.len() - i,
    {
        assert(points_upto(board@, i as int + 1) == points + board@[i as int].total_score);
        assert(guesses_upto(board@, i as int + 1) == guesses + board@[i as int].guesses_played);
        assert(board@[i as int].guesses_played >= 0);
        points = points + board[i].total_score;
        guesses = guesses + board[i].guesses_played;
        i = i + 1;
    }
    if guesses > 0 {
        binary64::divide(binary64::from_int(points), binary64::from_int(guesses))
    } else {
        binary64::from_int(FALLBACK_MEAN)
    }
}

/// All points and all guesses are the sums over the players.
pub proof fn law_board_totals_are_sums(board: Seq<ScoreLeaderboardEntry>, k: int)
    requires
        0 <= k <= board.len(),
    ensures
        points_upto(board, k) == board.take(k).fold_left(
            0int,
            |sum: int, e: ScoreLeaderboardEntry| sum + e.total_score,
        ),
        guesses_upto(board, k) == board.take(k).fold_left(
            0int,
            |sum: int, e: ScoreLeaderboardEntry| sum + e.guesses_played,
        ),
    decreases k,
{
    reveal(Seq::fold_left);
    if k > 0 {
        law_board_totals_are_sums(board, k - 1);
        assert(board.take(k).drop_last() =~= board.take(k - 1));
    }
}

/// The points per guess of a player; 0 without guesses.
pub open spec fn average(e: ScoreLeaderboardEntry) -> int {
    if e.guesses_played > 0 {
        binary64::quotient(float_of(e.total_score as int), float_of(e.guesses_played as int))
    } else {
        0
    }
}

fn average_of(e: &ScoreLeaderboardEntry) -> (r: F64Bits)
    ensures
        units(r) == average(*e),
        binary64::sized(r, 847, 1263),
        e.guesses_played > 0 ==> units(r) == binary64::quotient(
            float_of(e.total_score as int),
            float_of(e.guesses_played as int),
        ),
        e.guesses_played <= 0 ==> units(r) == 0,
{
    if e.guesses_played > 0 {
        binary64::divide(
            binary64::from_int(e.total_score),
            binary64::from_int(e.guesses_played),
        )
    } else {
        F64Bits { bits: 0 }
    }
}

/// What `guesses` guesses at `own` points each and the starting guesses at the mean
/// come to per guess.
pub open spec fn drawn(own: int, guesses: int, mean: int) -> int {
    let prior = float_of(PRIOR_GUESSES as int);
    let n = float_of(guesses);
    binary64::quotient(
        binary64::sum(binary64::product(prior, mean), binary64::product(n, own)),
        binary64::sum(prior, n),
    )
}

/// Points per guess, drawn towards the mean: the player's own guesses together
/// with the starting guesses at the mean.
pub open spec fn adjusted_score(e: ScoreLeaderboardEntry, mean: int) -> int {
    drawn(average(e), e.guesses_played as int, mean)
}

/// Points per guess, drawn towards the mean of all players.
pub fn confidence_adjusted_score(e: &ScoreLeaderboardEntry, global_mean: F64Bits) -> (r: F64Bits)
    requires
        may_be_mean(global_mean),
        e.guesses_played >= 0,
    ensures
        r.is_finite(),
        units(r) == adjusted_score(*e, units(global_mean)),
        units(r) == binary64::quotient(
            binary64::sum(
                binary64::product(float_of(30), units(global_mean)),
                binary64::product(
                    float_of(e.guesses_played as int),
                    if e.guesses_played > 0 {
                        binary64::quotient(
                            float_of(e.total_score as int),
                            float_of(e.guesses_played as int),
                        )
                    } else {
                        0
                    },
                ),
            ),
            binary64::sum(float_of(30), float_of(e.guesses_played as int)),
        ),
{
    let prior = binary64::from_int(PRIOR_GUESSES);
    let n = binary64::from_int(e.guesses_played);
    let own = average_of(e);
    let start = binary64::multiply(prior, global_mean);
    let played = binary64::multiply(n, own);
    assert(binary64::sized(start, 693, 1440));
    assert(binary64::sized(played, 693, 1440));
    let points = binary64::plus(start, played);
    assert(binary64::sized(prior, 1021, 1142));
    let guesses = binary64::plus(prior, n);
    assert(binary64::sized(guesses, 968, 1210));
    proof {
        binary64::lemma_sum_is_positive(units(prior), units(n));
    }
    binary64::divide(points, guesses)
}

/// How much of a player's rating rests on own guesses, as a share of one.
pub open spec fn confidence(guesses: int) -> int {
    if guesses > 0 {
        binary64::quotient(
            float_of(guesses),
            binary64::sum(float_of(guesses), float_of(PRIOR_GUESSES as int)),
        )
    } else {
        0
    }
}

/// How much of a player's rating rests on own guesses, as a share of one.
pub fn score_confidence(e: &ScoreLeaderboardEntry) -> (r: F64Bits)
    ensures
        units(r) == confidence(e.guesses_played as int),
        binary64::sized(r, 700, 1400),
        e.guesses_played > 0 ==> units(r) == binary64::quotient(
            float_of(e.guesses_played as int),
            binary64::sum(float_of(e.guesses_played as int), float_of(30)),
        ),
        e.guesses_played <= 0 ==> units(r) == 0,
{
    if e.guesses_played > 0 {
        let n = binary64::from_int(e.guesses_played);
        let prior = binary64::from_int(PRIOR_GUESSES);
        assert(binary64::sized(n, 1021, 1142));
        let all = binary64::plus(n, prior);
        assert(binary64::sized(all, 968, 1210));
        proof {
            binary64::lemma_sum_is_positive(units(n), units(prior));
        }
        binary64::divide(n, all)
    } else {
        F64Bits { bits: 0 }
    }
}

/// A share of one in parts of `scale`, rounded to the nearest.
pub open spec fn parts(share: int, scale: int) -> int {
    binary64::whole(binary64::product(share, float_of(scale)))
}

fn parts_of(share: F64Bits, scale: i64) -> (r: i64)
    requires
        binary64::sized(share, 700, 1400),
    ensures
        r == parts(units(share), scale as int),
{
    binary64::round_to_int(binary64::multiply(share, binary64::from_int(scale)))
}

/// A player on the leaderboard, with the rating that the place depends on.
pub struct Standing {
    pub entry: ScoreLeaderboardEntry,
    pub rating: F64Bits,
}

/// Whether `a` stands before `b` or ties with it: the higher rating first, then
/// more guesses, then the user identifier.
pub open spec fn stands_before(a: Standing, b: Standing) -> bool {
    if a.rating.rank() != b.rating.rank() {
        a.rating.rank() > b.rating.rank()
    } else if a.entry.guesses_played != b.entry.guesses_played {
        a.entry.guesses_played > b.entry.guesses_played
    } else {
        text::text_le(a.entry.user_id@, b.entry.user_id@)
    }
}

impl Ranked for Standing {
    open spec fn comparable(&self) -> bool {
        true
    }

    open spec fn before_eq(&self, other: &Self) -> bool {
        stands_before(*self, *other)
    }

    proof fn order_is_total(a: &Self, b: &Self) {
        text::lemma_text_le_total(a.entry.user_id@, b.entry.user_id@);
    }

    proof fn order_is_transitive(a: &Self, b: &Self, c: &Self) {
        if text::text_le(a.entry.user_id@, b.entry.user_id@) && text::text_le(
            b.entry.user_id@,
            c.entry.user_id@,
        ) {
            text::lemma_text_le_transitive(
                a.entry.user_id@,
                b.entry.user_id@,
                c.entry.user_id@,
            );
        }
    }

    fn goes_before(&self, other: &Self) -> (r: bool) {
        let own: i64 = self.rating.rank_of();
        let others: i64 = other.rating.rank_of();
        if own != others {
            own > others
        } else if self.entry.guesses_played != other.entry.guesses_played {
            self.entry.guesses_played > other.entry.guesses_played
        } else {
            text::text_at_most(self.entry.user_id.as_str(), other.entry.user_id.as_str())
        }
    }
}

/// Whether `rows` are the players of a board in its order, each with the rating
/// that the mean gives.
pub open spec fn are_standings(
    rows: Seq<Standing>,
    board: Seq<ScoreLeaderboardEntry>,
    mean: int,
) -> bool {
    &&& rows.len() == board.len()
    &&& forall|i: int|
        #![trigger rows[i]]
        0 <= i < rows.len() ==> rows[i].entry == board[i] && rows[i].rating.is_finite() && units(
            rows[i].rating,
        ) == adjusted_score(board[i], mean)
}

/// Whether a player is among the standings.
pub open spec fn is_listed(r: Seq<Standing>, e: ScoreLeaderboardEntry) -> bool {
    exists|j: int| 0 <= j < r.len() && (#[trigger] r[j]).entry == e
}

/// The players in the order of the leaderboard.
pub fn sort_score_leaderboard(board: Vec<ScoreLeaderboardEntry>, global_mean: F64Bits) -> (r: Vec<
    Standing,
>)
    requires
        may_be_mean(global_mean),
        forall|i: int| 0 <= i < board@.len() ==> (#[trigger] board@[i]).guesses_played >= 0,
    ensures
        exists|rows: Seq<Standing>|
            #[trigger] are_standings(rows, board@, units(global_mean)) && sort::is_stable_sort(
                rows,
                r@,
            ),
        forall|i: int|
            0 <= i < r@.len() ==> (#[trigger] r@[i]).entry.guesses_played >= 0
                && r@[i].rating.is_finite() && units(r@[i].rating) == adjusted_score(
                r@[i].entry,
                units(global_mean),
            ),
        r@.len() == board@.len(),
        forall|i: int| 0 <= i < r@.len() ==> board@.contains((#[trigger] r@[i]).entry),
        forall|i: int|
            0 <= i < board@.len() ==> is_listed(r@, #[trigger] board@[i]),
        forall|i: int, j: int|
            #![trigger r@[i], r@[j]]
            0 <= i < j < r@.len() ==> {
                let a = r@[i];
                let b = r@[j];
                ||| a.rating.rank() > b.rating.rank()
                ||| a.rating.rank() == b.rating.rank() && a.entry.guesses_played
                    > b.entry.guesses_played
                ||| a.rating.rank() == b.rating.rank() && a.entry.guesses_played
                    == b.entry.guesses_played && text::text_le(a.entry.user_id@, b.entry.user_id@)
            },
{
    let ghost orig = board@;
    let ghost mean = units(global_mean);
    let mut left = board;
    let mut back: Vec<Standing> = Vec::new();
    let n: usize = left.len();
    assert(orig.take(n as int) =~= orig);
    while left.len() > 0
        invariant
            may_be_mean(global_mean),
            mean == units(global_mean),
            forall|i: int| 0 <= i < orig.len() ==> (#[trigger] orig[i]).guesses_played >= 0,
            left@.len() + back@.len() == orig.len(),
            left@ == orig.take(left@.len() as int),
            forall|k: int|
                #![trigger back@[k]]
                0 <= k < back@.len() ==> back@[k].entry == orig[orig.len() - 1 - k]
                    && back@[k].rating.is_finite() && units(back@[k].rating) == adjusted_score(
                    orig[orig.len() - 1 - k],
                    mean,
                ),
        decreases left@.len(),
    {
        let ghost at = left@.len() - 1;
        match left.pop() {
            Some(entry) => {
                assert(entry == orig[at]);
                assert(entry.guesses_played >= 0);
                let rating = confidence_adjusted_score(&entry, global_mean);
                back.push(Standing { entry, rating });
                assert(left@ =~= orig.take(at));
            },
            None => {},
        }
    }
    let mut list: Vec<Standing> = Vec::new();
    while back.len() > 0
        invariant
            list@.len() + back@.len() == orig.len(),
            forall|k: int|
                #![trigger back@[k]]
                0 <= k < back@.len() ==> back@[k].entry == orig[orig.len() - 1 - k]
                    && back@[k].rating.is_finite() && units(back@[k].rating) == adjusted_score(
                    orig[orig.len() - 1 - k],
                    mean,
                ),
            forall|k: int|
                #![trigger list@[k]]
                0 <= k < list@.len() ==> list@[k].entry == orig[k] && list@[k].rating.is_finite()
                    && units(list@[k].rating) == adjusted_score(orig[k], mean),
        decreases back@.len(),
    {
        match back.pop() {
            Some(s) => {
                list.push(s);
            },
            None => {},
        }
    }
    let ghost rows = list@;
    assert(are_standings(rows, orig, mean));
    assert(sort::all_comparable(rows));
    let r = sort::sort_stable(list);
    proof {
        broadcast use vstd::seq_lib::group_to_multiset_ensures;

        assert forall|i: int| 0 <= i < r@.len() implies (#[trigger] r@[i]).entry.guesses_played
            >= 0 && r@[i].rating.is_finite() && units(r@[i].rating) == adjusted_score(
            r@[i].entry,
            mean,
        ) by {
            assert(r@.contains(r@[i]));
            assert(rows.to_multiset().count(r@[i]) > 0);
            assert(rows.contains(r@[i]));
            let k = choose|k: int| 0 <= k < rows.len() && rows[k] == r@[i];
            assert(orig[k].guesses_played >= 0);
        }
        assert forall|i: int| 0 <= i < r@.len() implies orig.contains((#[trigger] r@[i]).entry) by {
            sort::lemma_same_members(rows, r@);
            assert(rows.contains(r@[i]));
            let k = choose|k: int| 0 <= k < rows.len() && rows[k] == r@[i];
            assert(orig[k] == r@[i].entry);
        }
        assert forall|i: int| 0 <= i < orig.len() implies is_listed(r@, #[trigger] orig[i]) by {
            sort::lemma_same_members(rows, r@);
            assert(rows.contains(rows[i]));
            assert(r@.contains(rows[i]));
            let j = choose|j: int| 0 <= j < r@.len() && r@[j] == rows[i];
            assert(r@[j].entry == orig[i]);
        }
        assert forall|i: int, j: int|
            #![trigger r@[i], r@[j]]
            0 <= i < j < r@.len() implies {
            let a = r@[i];
            let b = r@[j];
            ||| a.rating.rank() > b.rating.rank()
            ||| a.rating.rank() == b.rating.rank() && a.entry.guesses_played
                > b.entry.guesses_played
            ||| a.rating.rank() == b.rating.rank() && a.entry.guesses_played
                == b.entry.guesses_played && text::text_le(a.entry.user_id@, b.entry.user_id@)
        } by {
            assert(r@[i].before_eq(&r@[j]));
        }
    }
    r
}

/// Nobody stands behind a player with a lower rating.
pub proof fn law_leaderboard_is_ordered(
    board: Seq<ScoreLeaderboardEntry>,
    mean: int,
    rows: Seq<Standing>,
    r: Seq<Standing>,
    i: int,
    j: int,
)
    requires
        are_standings(rows, board, mean),
        sort::is_stable_sort(rows, r),
        0 <= i <= j < r.len(),
    ensures
        units(r[i].rating) >= units(r[j].rating),
{
    broadcast use vstd::seq_lib::group_to_multiset_ensures;

    assert(r[i].before_eq(&r[j]));
    assert forall|k: int| 0 <= k < r.len() implies (#[trigger] r[k]).rating.is_finite() by {
        assert(r.contains(r[k]));
        assert(rows.to_multiset().count(r[k]) > 0);
        assert(rows.contains(r[k]));
    }
    binary64::law_rank_follows_value(r[i].rating, r[j].rating);
    binary64::law_rank_follows_value(r[j].rating, r[i].rating);
}

/// The medal of place `i`, counted from 0.
pub open spec fn board_medal(i: int) -> Seq<char> {
    if i < 3 {
        results::medal_text(i)
    } else {
        "▪️"@
    }
}

/// A distance, or that there is none without guesses.
pub open spec fn distance_shown(e: ScoreLeaderboardEntry, distance: Seq<char>) -> Seq<char> {
    if e.guesses_played > 0 {
        distance
    } else {
        "n/a"@
    }
}

/// How many of ten cells stand for a player's confidence.
pub open spec fn confidence_cells(e: ScoreLeaderboardEntry) -> nat {
    results::cells_within(parts(confidence(e.guesses_played as int), 10))
}

/// The two lines of a player on the leaderboard.
pub open spec fn board_lines(i: int, e: ScoreLeaderboardEntry, mean: int) -> Seq<Seq<char>> {
    seq![
        board_medal(i) + " "@ + text::decimal_int(i + 1) + ". "@ + e.user_id@,
        "   "@ + clock::bar_text(confidence_cells(e), 10) + " 🔒"@ + text::decimal_int(
            parts(confidence(e.guesses_played as int), 100),
        ) + "% · ⭐"@ + text::decimal_int(binary64::whole(adjusted_score(e, mean))) + " · 🎯"@
            + text::decimal_int(binary64::whole(average(e))) + "/g · 📍"@ + distance_shown(e, e.avg_distance@) + " · 🏅"@ + distance_shown(
            e,
            e.best_distance@,
        ) + " · 🎮"@ + text::decimal_int(e.guesses_played as int),
    ]
}

/// The lines of the first `k` players.
pub open spec fn boards_lines(ranked: Seq<Standing>, mean: int, k: int) -> Seq<Seq<char>>
    decreases k,
{
    if k <= 0 {
        Seq::empty()
    } else {
        boards_lines(ranked, mean, k - 1) + board_lines(k - 1, ranked[k - 1].entry, mean)
    }
}

/// The leaderboard under a heading.
pub open spec fn board_text(
    ranked: Seq<Standing>,
    mean: int,
    header: Seq<char>,
    rounds: int,
) -> Seq<char> {
    text::joined(
        seq![
            "🏆 **"@ + header + "** · "@ + text::decimal_int(rounds) + " rounds"@,
            "⭐ sorted by confidence-adjusted pts/guess"@,
            ""@,
        ] + boards_lines(ranked, mean, ranked.len() as int),
        "\n"@,
    )
}

/// Whether `out` is the leaderboard under a heading: every player once, in the order
/// of the ratings.
pub open spec fn is_leaderboard(
    out: Seq<char>,
    board: Seq<ScoreLeaderboardEntry>,
    header: Seq<char>,
    rounds: int,
) -> bool {
    exists|rows: Seq<Standing>, ranked: Seq<Standing>|
        #[trigger] are_standings(rows, board, mean_of(board)) && #[trigger] sort::is_stable_sort(
            rows,
            ranked,
        ) && out == board_text(ranked, mean_of(board), header, rounds)
}

fn push_player(lines: &mut Vec<String>, i: usize, player: &Standing, Ghost(mean): Ghost<int>)
    requires
        player.rating.is_finite(),
        units(player.rating) == adjusted_score(player.entry, mean),
    ensures
        text::views(final(lines)@) == text::views(old(lines)@) + board_lines(
            i as int,
            player.entry,
            mean,
        ),
        text::views(final(lines)@) == text::views(old(lines)@) + seq![
            (if i == 0 {
                "🥇"@
            } else if i == 1 {
                "🥈"@
            } else if i == 2 {
                "🥉"@
            } else {
                "▪️"@
            }) + " "@ + text::decimal_int(i + 1) + ". "@ + player.entry.user_id@,
            "   "@ + clock::bar_text(confidence_cells(player.entry), 10) + " 🔒"@
                + text::decimal_int(parts(confidence(player.entry.guesses_played as int), 100))
                + "% · ⭐"@ + text::decimal_int(binary64::whole(units(player.rating))) + " · 🎯"@
                + text::decimal_int(binary64::whole(average(player.entry))) + "/g · 📍"@ + (
            if player.entry.guesses_played > 0 {
                player.entry.avg_distance@
            } else {
                "n/a"@
            }) + " · 🏅"@ + (if player.entry.guesses_played > 0 {
                player.entry.best_distance@
            } else {
                "n/a"@
            }) + " · 🎮"@ + text::decimal_int(player.entry.guesses_played as int),
        ],
{
    let e = &player.entry;
    let share = score_confidence(e);
    let mut a = text::owned(
        if i < 3 {
            results::medal(i)
        } else {
            "▪️"
        },
    );
    a.append(" ");
    text::push_decimal_int(&mut a, i as i128 + 1);
    a.append(". ");
    a.append(e.user_id.as_str());
    let mut b = text::owned("   ");
    b.append(clock::bar(results::within_ten(parts_of(share, 10)), 10).as_str());
    b.append(" 🔒");
    text::push_decimal_int(&mut b, parts_of(share, 100) as i128);
    b.append("% · ⭐");
    text::push_decimal_int(&mut b, binary64::round_to_int(player.rating) as i128);
    b.append(" · 🎯");
    text::push_decimal_int(&mut b, binary64::round_to_int(average_of(e)) as i128);
    b.append("/g · 📍");
    if e.guesses_played > 0 {
        b.append(e.avg_distance.as_str());
    } else {
        b.append("n/a");
    }
    b.append(" · 🏅");
    if e.guesses_played > 0 {
        b.append(e.best_distance.as_str());
    } else {
        b.append("n/a");
    }
    b.append(" · 🎮");
    text::push_decimal_int(&mut b, e.guesses_played as i128);
    let ghost av = a@;
    let ghost bv = b@;
    lines.push(a);
    lines.push(b);
    assert(seq![av, bv] =~= board_lines(i as int, player.entry, mean));
    assert(text::views(lines@) =~= text::views(old(lines)@) + seq![av, bv]);
}

/// The leaderboard under a heading.
pub fn format_leaderboard(board: Vec<ScoreLeaderboardEntry>, header: &str, round_count: i64) -> (out:
    String)
    requires
        countable(board@),
    ensures
        is_leaderboard(out@, board@, header@, round_count as int),
        exists|lines: Seq<Seq<char>>|
            out@ == #[trigger] text::joined(lines, "\n"@) && lines.len() >= 3 && lines[0]
                == "🏆 **"@ + header@ + "** · "@ + text::decimal_int(round_count as int)
                + " rounds"@ && lines[1] == "⭐ sorted by confidence-adjusted pts/guess"@
                && lines[2] == ""@,
{
    let global_mean = score_global_mean(&board);
    let ghost mean = units(global_mean);
    let ghost orig = board@;
    let ranked = sort_score_leaderboard(board, global_mean);
    let ghost rows = choose|rows: Seq<Standing>|
        #[trigger] are_standings(rows, orig, mean) && sort::is_stable_sort(rows, ranked@);
    let mut head = text::owned("🏆 **");
    head.append(header);
    head.append("** · ");
    text::push_decimal_int(&mut head, round_count as i128);
    head.append(" rounds");
    let ghost hv = head@;
    let mut lines: Vec<String> = Vec::new();
    lines.push(head);
    lines.push(text::owned("⭐ sorted by confidence-adjusted pts/guess"));
    lines.push(text::owned(""));
    let ghost start = text::views(lines@);
    assert(start =~= seq![hv, "⭐ sorted by confidence-adjusted pts/guess"@, ""@]);
    let mut i: usize = 0;
    assert(start =~= start + boards_lines(ranked@, mean, 0));
    while i < ranked.len()
        invariant
            i <= ranked@.len(),
            forall|k: int|
                0 <= k < ranked@.len() ==> (#[trigger] ranked@[k]).rating.is_finite() && units(
                    ranked@[k].rating,
                ) == adjusted_score(ranked@[k].entry, mean),
            text::views(lines@) == start + boards_lines(ranked@, mean, i as int),
        decreases ranked@.len() - i,
    {
        assert(ranked@[i as int].rating.is_finite());
        push_player(&mut lines, i, &ranked[i], Ghost(mean));
        i = i + 1;
        assert(text::views(lines@) =~= start + boards_lines(ranked@, mean, i as int));
    }
    text::join(&lines, "\n")
}

/// The player at place `i`, counted from 0, is shown in two lines at twice that place.
pub proof fn law_players_are_listed_in_order(ranked: Seq<Standing>, mean: int, k: int, i: int)
    requires
        0 <= i < k <= ranked.len(),
    ensures
        boards_lines(ranked, mean, k).len() == 2 * k,
        boards_lines(ranked, mean, k)[2 * i] == board_lines(i, ranked[i].entry, mean)[0],
        boards_lines(ranked, mean, k)[2 * i + 1] == board_lines(i, ranked[i].entry, mean)[1],
    decreases k,
{
    lemma_board_len(ranked, mean, k);
    lemma_board_len(ranked, mean, k - 1);
    if i < k - 1 {
        law_players_are_listed_in_order(ranked, mean, k - 1, i);
    }
}

proof fn lemma_board_len(ranked: Seq<Standing>, mean: int, k: int)
    requires
        0 <= k <= ranked.len(),
    ensures
        boards_lines(ranked, mean, k).len() == 2 * k,
    decreases k,
{
    if k > 0 {
        lemma_board_len(ranked, mean, k - 1);
    }
}

proof fn lemma_drawn_grows(a: int, b: int, guesses: int, m: int, n: int)
    requires
        a <= b,
        m <= n,
        guesses >= 0,
    ensures
        drawn(a, guesses, m) <= drawn(b, guesses, n),
{
    let o = binary64::one();
    let prior = float_of(PRIOR_GUESSES as int);
    let g = float_of(guesses);
    binary64::lemma_two_positive(binary64::ONE_SHIFT as int);
    binary64::lemma_float_sign(PRIOR_GUESSES as int);
    binary64::lemma_float_sign(guesses);
    assert(prior * m <= prior * n && g * a <= g * b) by (nonlinear_arith)
        requires
            prior > 0,
            g >= 0,
            m <= n,
            a <= b,
    ;
    binary64::law_rounding_keeps_order(prior * m, prior * n, o);
    binary64::law_rounding_keeps_order(g * a, g * b, o);
    let s = binary64::product(prior, m) + binary64::product(g, a);
    let t = binary64::product(prior, n) + binary64::product(g, b);
    binary64::law_rounding_keeps_order(s, t, 1);
    let x = binary64::nearest(s, 1);
    let y = binary64::nearest(t, 1);
    assert(x * o <= y * o) by (nonlinear_arith)
        requires
            x <= y,
            o > 0,
    ;
    binary64::lemma_sum_is_positive(prior, g);
    binary64::law_rounding_keeps_order(x * o, y * o, binary64::sum(prior, g));
}

/// The rating of a player lies between that of one who always does as well as the
/// mean and that of one whose every starting guess is as good as the player's own.
pub proof fn law_rating_is_drawn_towards_the_mean(e: ScoreLeaderboardEntry, mean: int)
    requires
        e.guesses_played >= 0,
    ensures
        mean <= average(e) ==> drawn(mean, e.guesses_played as int, mean) <= adjusted_score(e, mean)
            <= drawn(average(e), e.guesses_played as int, average(e)),
        average(e) <= mean ==> drawn(average(e), e.guesses_played as int, average(e))
            <= adjusted_score(e, mean) <= drawn(mean, e.guesses_played as int, mean),
{
    let n = e.guesses_played as int;
    if mean <= average(e) {
        lemma_drawn_grows(mean, average(e), n, mean, mean);
        lemma_drawn_grows(average(e), average(e), n, mean, average(e));
    } else {
        lemma_drawn_grows(average(e), mean, n, mean, mean);
        lemma_drawn_grows(average(e), average(e), n, average(e), mean);
    }
    if mean == average(e) {
        lemma_drawn_grows(mean, mean, n, mean, mean);
    }
}

/// Of two players with as many guesses, the one with more points is not rated lower.
pub proof fn law_more_points_never_rate_lower(
    a: ScoreLeaderboardEntry,
    b: ScoreLeaderboardEntry,
    mean: int,
)
    requires
        a.guesses_played == b.guesses_played,
        a.guesses_played >= 0,
        a.total_score <= b.total_score,
    ensures
        adjusted_score(a, mean) <= adjusted_score(b, mean),
{
    if a.guesses_played > 0 {
        let o = binary64::one();
        let p = a.total_score as int;
        let q = b.total_score as int;
        binary64::lemma_two_positive(binary64::ONE_SHIFT as int);
        assert(p * o <= q * o) by (nonlinear_arith)
            requires
                p <= q,
                o > 0,
        ;
        binary64::law_rounding_keeps_order(p * o, q * o, 1);
        let x = float_of(p);
        let y = float_of(q);
        assert(x * o <= y * o) by (nonlinear_arith)
            requires
                x <= y,
                o > 0,
        ;
        binary64::lemma_float_sign(a.guesses_played as int);
        binary64::law_rounding_keeps_order(x * o, y * o, float_of(a.guesses_played as int));
    }
    lemma_drawn_grows(average(a), average(b), a.guesses_played as int, mean, mean);
}

/// The leaderboard over all rounds; `None` where there are no scores.
pub fn build_alltime_leaderboard(board: Vec<ScoreLeaderboardEntry>, round_count: i64) -> (r: Option<
    String,
>)
    requires
        countable(board@),
    ensures
        r is Some == (board@.len() > 0),
        r matches Some(t) ==> is_leaderboard(
            t@,
            board@,
            "All-time Leaderboard"@,
            round_count as int,
        ),
{
    if board.len() == 0 {
        None
    } else {
        Some(format_leaderboard(board, "All-time Leaderboard", round_count))
    }
}

/// The leaderboard over the last 90 days; `None` where there are no scores.
pub fn build_rolling_leaderboard(board: Vec<ScoreLeaderboardEntry>, round_count: i64) -> (r: Option<
    String,
>)
    requires
        countable(board@),
    ensures
        r is Some == (board@.len() > 0),
        r matches Some(t) ==> is_leaderboard(
            t@,
            board@,
            "Leaderboard (last 90 days)"@,
            round_count as int,
        ),
{
    if board.len() == 0 {
        None
    } else {
        Some(format_leaderboard(board, "Leaderboard (last 90 days)", round_count))
    }
}

/// The reply to a request for scores.
pub fn scores_reply(text: Option<String>, rolling: bool) -> (out: String)
    ensures
        match text {
            Some(t) => out == t,
            None => out@ == if rolling {
                "No scores in the last 90 days."@
            } else {
                "No scores yet — no games have been played."@
            },
        },
{
    match text {
        Some(t) => t,
        None => if rolling {
            text::owned("No scores in the last 90 days.")
        } else {
            text::owned("No scores yet — no games have been played.")
        },
    }
}

// ── Counting answers ─────────────────────────────────────────────────────────

/// Correct answers of a player in multiple-choice rounds.
pub struct LeaderboardEntry {
    pub user_id: String,
    pub total_correct: i64,
    pub total_questions: i64,
    pub rounds_played: i64,
}

/// How many of the first `k` answers are correct.
pub open spec fn correct_upto(results: Seq<bool>, k: int) -> nat
    decreases k,
{
    if k <= 0 {
        0
    } else {
        correct_upto(results, k - 1) + if results[k - 1] {
            1nat
        } else {
            0nat
        }
    }
}

/// How many answers are correct, and how many there are.
pub fn tally(results: &Vec<bool>) -> (r: (usize, usize))
    ensures
        r.0 == correct_upto(results@, results@.len() as int),
        r.1 == results@.len(),
        r.0 == results@.filter(|right: bool| right).len(),
{
    let mut correct: usize = 0;
    let mut i: usize = 0;
    while i < results.len()
        invariant
            i <= results@.len(),
            correct == correct_upto(results@, i as int),
            correct <= i,
        decreases results@.len() - i,
    {
        if results[i] {
            correct = correct + 1;
        }
        i = i + 1;
    }
    proof {
        lemma_correct_counts(results@, results@.len() as int);
        assert(results@.take(results@.len() as int) =~= results@);
    }
    (correct, results.len())
}

proof fn lemma_correct_counts(results: Seq<bool>, k: int)
    requires
        0 <= k <= results.len(),
    ensures
        correct_upto(results, k) == results.take(k).filter(|right: bool| right).len(),
    decreases k,
{
    reveal(Seq::filter);
    if k > 0 {
        lemma_correct_counts(results, k - 1);
        assert(results.take(k).drop_last() =~= results.take(k - 1));
    }
}

/// What the database knows of a player's answers.
#[derive(Clone, Copy, Debug, PartialEq, Eq, Structural)]
pub struct UserStatsRow {
    pub total_correct: i64,
    pub total_questions: i64,
    pub rounds_played: i64,
}

/// A number, or 0 where there is none.
pub open spec fn or_zero(n: Option<i64>) -> i64 {
    match n {
        Some(v) => v,
        None => 0,
    }
}

fn number(n: Option<i64>) -> (r: i64)
    ensures
        r == or_zero(n),
        n matches Some(v) ==> r == v,
        n is None ==> r == 0,
{
    match n {
        Some(v) => v,
        None => 0,
    }
}

/// The statistics of a player from the sums over the rounds played; `None` where
/// there were no rounds.
pub fn user_stats(correct: Option<i64>, questions: Option<i64>, rounds: i64) -> (r: Option<
    UserStatsRow,
>)
    ensures
        r is Some == (rounds != 0),
        r matches Some(s) ==> s == (UserStatsRow {
            total_correct: or_zero(correct),
            total_questions: or_zero(questions),
            rounds_played: rounds,
        }),
        r matches Some(s) ==> {
            &&& s.rounds_played == rounds
            &&& correct matches Some(n) ==> s.total_correct == n
            &&& correct is None ==> s.total_correct == 0
            &&& questions matches Some(n) ==> s.total_questions == n
            &&& questions is None ==> s.total_questions == 0
        },
{
    if rounds == 0 {
        return None;
    }
    Some(
        UserStatsRow {
            total_correct: number(correct),
            total_questions: number(questions),
            rounds_played: rounds,
        },
    )
}

/// The answers of a player in one country.
pub struct UserCountryStat {
    pub country: String,
    pub answered: i64,
    pub correct: i64,
}

/// A percentage, rounded towards zero; 0 of nothing.
pub open spec fn percent(part: int, whole: int) -> int {
    if whole > 0 {
        text::trunc_div(part * 100, whole)
    } else {
        0
    }
}

fn percent_of(part: i64, whole: i64) -> (r: i128)
    ensures
        r == percent(part as int, whole as int),
        whole <= 0 ==> r == 0,
        whole > 0 && part >= 0 ==> r * whole <= part * 100 < (r + 1) * whole,
{
    proof {
        if whole > 0 {
            text::law_division_rounds_towards_zero(part * 100, whole as int);
            let q = percent(part as int, whole as int);
            let w = whole as int;
            assert((q + 1) * w == q * w + w) by (nonlinear_arith);
        }
    }
    if whole > 0 {
        text::divide(part as i128 * 100, whole as i128)
    } else {
        0
    }
}

/// A player's place on the leaderboard: the first entry of that name among the
/// first `k`, counted from 1.
pub open spec fn place_among(ranked: Seq<Standing>, user: Seq<char>, k: int) -> Option<int>
    decreases k,
{
    if k <= 0 {
        None
    } else {
        match place_among(ranked, user, k - 1) {
            Some(p) => Some(p),
            None => if ranked[k - 1].entry.user_id@ == user {
                Some(k)
            } else {
                None
            },
        }
    }
}

/// The place of a player on the leaderboard, where the player is on it.
pub fn rank_of(ranked: &Vec<Standing>, user: &str) -> (r: Option<usize>)
    ensures
        r is Some == place_among(ranked@, user@, ranked@.len() as int) is Some,
        r matches Some(p) ==> p == place_among(ranked@, user@, ranked@.len() as int)->0,
        r matches Some(p) ==> 1 <= p <= ranked@.len() && ranked@[p - 1].entry.user_id@ == user@
            && forall|i: int|
            0 <= i < p - 1 ==> (#[trigger] ranked@[i]).entry.user_id@ != user@,
        r is None ==> forall|i: int|
            0 <= i < ranked@.len() ==> (#[trigger] ranked@[i]).entry.user_id@ != user@,
{
    let n: usize = ranked.len();
    let mut found: Option<usize> = None;
    let mut i: usize = 0;
    while i < n
        invariant
            i <= n,
            n == ranked@.len(),
            found is Some == place_among(ranked@, user@, i as int) is Some,
            found matches Some(p) ==> p == place_among(ranked@, user@, i as int)->0,
            found matches Some(p) ==> 1 <= p <= i && ranked@[p - 1].entry.user_id@ == user@
                && forall|k: int|
                0 <= k < p - 1 ==> (#[trigger] ranked@[k]).entry.user_id@ != user@,
            found is None ==> forall|k: int|
                0 <= k < i ==> (#[trigger] ranked@[k]).entry.user_id@ != user@,
        decreases n - i,
    {
        if found.is_none() && text::same_text(ranked[i].entry.user_id.as_str(), user) {
            found = Some(i + 1);
        }
        i = i + 1;
    }
    found
}

/// What is said of a player's place among `total`.
pub open spec fn rank_text(rank: Option<int>, total: int) -> Seq<char> {
    match rank {
        Some(r) => " · rank #"@ + text::decimal_int(r) + " of "@ + text::decimal_int(total),
        None => ""@,
    }
}

/// The first line of a player's statistics.
pub open spec fn my_stats_head(s: UserStatsRow, rank: Option<int>, total: int) -> Seq<char> {
    "🌍 **Your stats** · "@ + text::decimal_int(s.total_correct as int) + "/"@ + text::decimal_int(
        s.total_questions as int,
    ) + " correct ("@ + text::decimal_int(
        percent(s.total_correct as int, s.total_questions as int),
    ) + "%) · "@ + text::decimal_int(s.rounds_played as int) + " round(s)"@ + rank_text(rank, total)
}

/// A country with the player's percentage there.
pub open spec fn country_share(label: Seq<char>, c: UserCountryStat) -> Seq<char> {
    label + c.country@ + " ("@ + text::decimal_int(
        text::trunc_div(c.correct * 100, c.answered as int),
    ) + "%)"@
}

/// A player's statistics. The best and the worst country are the first and the
/// last of the list; they are shown where there are at least two.
pub open spec fn my_stats_text(
    s: UserStatsRow,
    rank: Option<int>,
    total: int,
    countries: Seq<UserCountryStat>,
) -> Seq<char> {
    let head = my_stats_head(s, rank, total);
    text::joined(
        if countries.len() >= 2 {
            seq![
                head,
                country_share("🏆 Best: "@, countries[0]),
                country_share("😬 Worst: "@, countries.last()),
            ]
        } else {
            seq![head]
        },
        "\n"@,
    )
}

fn share_line(label: &str, c: &UserCountryStat) -> (out: String)
    requires
        c.answered != 0,
    ensures
        out@ == country_share(label@, *c),
        out@ == label@ + c.country@ + " ("@ + text::decimal_int(
            text::trunc_div(c.correct * 100, c.answered as int),
        ) + "%)"@,
{
    let mut out = text::owned(label);
    out.append(c.country.as_str());
    out.append(" (");
    text::push_decimal_int(&mut out, text::divide(c.correct as i128 * 100, c.answered as i128));
    out.append("%)");
    out
}

/// The rank of a player as an integer, where there is one.
pub open spec fn rank_value(rank: Option<usize>) -> Option<int> {
    match rank {
        Some(r) => Some(r as int),
        None => None,
    }
}

/// A player's statistics. `countries` lists the best country first.
fn write_my_stats(
    s: UserStatsRow,
    rank: Option<usize>,
    total: usize,
    countries: &Vec<UserCountryStat>,
) -> (out: String)
    requires
        forall|i: int| 0 <= i < countries@.len() ==> (#[trigger] countries@[i]).answered != 0,
    ensures
        out@ == my_stats_text(s, rank_value(rank), total as int, countries@),
        text::occurs_at(
            out@,
            "🌍 **Your stats** · "@ + text::decimal_int(s.total_correct as int) + "/"@
                + text::decimal_int(s.total_questions as int) + " correct ("@ + text::decimal_int(
                percent(s.total_correct as int, s.total_questions as int),
            ) + "%) · "@ + text::decimal_int(s.rounds_played as int) + " round(s)"@ + (match rank {
                Some(r) => " · rank #"@ + text::decimal_int(r as int) + " of "@
                    + text::decimal_int(total as int),
                None => ""@,
            }),
            0,
        ),
        countries@.len() >= 2 ==> text::contains_text(
            out@,
            "🏆 Best: "@ + countries@[0].country@ + " ("@ + text::decimal_int(
                text::trunc_div(countries@[0].correct * 100, countries@[0].answered as int),
            ) + "%)"@,
        ) && text::contains_text(
            out@,
            "😬 Worst: "@ + countries@.last().country@ + " ("@ + text::decimal_int(
                text::trunc_div(
                    countries@.last().correct * 100,
                    countries@.last().answered as int,
                ),
            ) + "%)"@,
        ),
{
    let mut head = text::owned("🌍 **Your stats** · ");
    text::push_decimal_int(&mut head, s.total_correct as i128);
    head.append("/");
    text::push_decimal_int(&mut head, s.total_questions as i128);
    head.append(" correct (");
    text::push_decimal_int(&mut head, percent_of(s.total_correct, s.total_questions));
    head.append("%) · ");
    text::push_decimal_int(&mut head, s.rounds_played as i128);
    head.append(" round(s)");
    let ghost front = head@;
    match rank {
        Some(r) => {
            head.append(" · rank #");
            text::push_decimal_int(&mut head, r as i128);
            head.append(" of ");
            text::push_decimal_int(&mut head, total as i128);
        },
        None => {
            head.append("");
        },
    }
    assert(head@ =~= front + rank_text(rank_value(rank), total as int));
    let ghost hv = head@;
    let mut lines: Vec<String> = Vec::new();
    lines.push(head);
    assert(text::views(lines@) =~= seq![hv]);
    let n: usize = countries.len();
    if n >= 2 {
        assert(countries@[0].answered != 0);
        assert(countries@[n - 1].answered != 0);
        lines.push(share_line("🏆 Best: ", &countries[0]));
        lines.push(share_line("😬 Worst: ", &countries[n - 1]));
        assert(text::views(lines@) =~= seq![
            hv,
            country_share("🏆 Best: "@, countries@[0]),
            country_share("😬 Worst: "@, countries@.last()),
        ]);
    }
    proof {
        let parts = text::views(lines@);
        if n >= 2 {
            text::lemma_joined_contains(parts, "\n"@, 1);
            text::lemma_joined_contains(parts, "\n"@, 2);
            text::law_joined_parts_follow_one_another(
                Seq::empty(),
                parts[0],
                parts.skip(1),
                "\n"@,
            );
            assert(parts =~= seq![parts[0]] + parts.skip(1));
        }
        assert(text::joined(parts, "\n"@).subrange(0, hv.len() as int) =~= hv);
    }
    text::join(&lines, "\n")
}

/// The reply to a request for a player's own statistics.
pub fn my_stats_reply(
    s: Option<UserStatsRow>,
    rank: Option<usize>,
    total: usize,
    countries: &Vec<UserCountryStat>,
) -> (out: String)
    requires
        forall|i: int| 0 <= i < countries@.len() ==> (#[trigger] countries@[i]).answered != 0,
    ensures
        out@ == match s {
            Some(row) => my_stats_text(row, rank_value(rank), total as int, countries@),
            None => "No rounds played yet."@,
        },
{
    match s {
        Some(row) => write_my_stats(row, rank, total, countries),
        None => text::owned("No rounds played yet."),
    }
}

// ── Countries ────────────────────────────────────────────────────────────────

/// How often a country was shown and how it was answered.
pub struct CountryStat {
    pub country: String,
    pub region: String,
    pub times_asked: i64,
    pub total_answers: i64,
    pub correct_answers: i64,
}

/// How often the first `k` countries were shown together.
pub open spec fn asked_upto(stats: Seq<CountryStat>, k: int) -> int
    decreases k,
{
    if k <= 0 {
        0
    } else {
        asked_upto(stats, k - 1) + stats[k - 1].times_asked
    }
}

/// How often the most frequent of the first `k` countries was shown.
pub open spec fn most_asked(stats: Seq<CountryStat>, k: int) -> int
    decreases k,
{
    if k <= 0 {
        0
    } else if stats[k - 1].times_asked > most_asked(stats, k - 1) {
        stats[k - 1].times_asked as int
    } else {
        most_asked(stats, k - 1)
    }
}

/// The line of a country; `max` is the count that fills the bar.
pub open spec fn country_line(s: CountryStat, max: int) -> Seq<char> {
    clock::bar_text((s.times_asked * 10 / max) as nat, 10) + "  "@ + text::right_aligned(
        text::decimal_int(s.times_asked as int),
        2,
    ) + "x  "@ + text::right_aligned(
        text::decimal_int(percent(s.correct_answers as int, s.total_answers as int)),
        3,
    ) + "% ✓  "@ + s.country@ + " ("@ + s.region@ + ")"@
}

/// The lines of the first `k` countries.
pub open spec fn country_lines(stats: Seq<CountryStat>, max: int, k: nat) -> Seq<Seq<char>> {
    Seq::new(k, |i: int| country_line(stats[i], max))
}

/// All countries with how often they were shown and how well they were answered.
pub open spec fn countries_text(stats: Seq<CountryStat>) -> Seq<char> {
    text::joined(
        seq![
            "🗺️ **Countries** · "@ + text::decimal_int(asked_upto(stats, stats.len() as int))
                + " guesses"@,
            ""@,
        ] + country_lines(stats, most_asked(stats, stats.len() as int), stats.len()),
        "\n"@,
    )
}

proof fn lemma_most_asked(stats: Seq<CountryStat>, k: int, i: int)
    requires
        0 <= i < k <= stats.len(),
    ensures
        stats[i].times_asked <= most_asked(stats, k),
    decreases k,
{
    if i < k - 1 {
        lemma_most_asked(stats, k - 1, i);
    }
}

/// The most frequent country is one of them, and none was shown more often.
pub proof fn law_most_asked_is_the_maximum(stats: Seq<CountryStat>, i: int)
    requires
        0 <= i < stats.len(),
        forall|k: int| 0 <= k < stats.len() ==> (#[trigger] stats[k]).times_asked >= 0,
    ensures
        stats[i].times_asked <= most_asked(stats, stats.len() as int),
        exists|k: int|
            0 <= k < stats.len() && (#[trigger] stats[k]).times_asked == most_asked(
                stats,
                stats.len() as int,
            ),
{
    lemma_most_asked(stats, stats.len() as int, i);
    lemma_most_asked_is_one(stats, stats.len() as int);
}

proof fn lemma_most_asked_is_one(stats: Seq<CountryStat>, k: int)
    requires
        0 < k <= stats.len(),
        forall|j: int| 0 <= j < stats.len() ==> (#[trigger] stats[j]).times_asked >= 0,
    ensures
        exists|j: int| 0 <= j < k && (#[trigger] stats[j]).times_asked == most_asked(stats, k),
    decreases k,
{
    assert(stats[k - 1].times_asked >= 0);
    if stats[k - 1].times_asked <= most_asked(stats, k - 1) {
        if k > 1 {
            lemma_most_asked_is_one(stats, k - 1);
            let j = choose|j: int|
                0 <= j < k - 1 && (#[trigger] stats[j]).times_asked == most_asked(stats, k - 1);
            assert(stats[j].times_asked == most_asked(stats, k));
        }
    }
}

/// How often all countries were shown is the sum over them.
pub proof fn law_asked_totals_are_sums(stats: Seq<CountryStat>, k: int)
    requires
        0 <= k <= stats.len(),
    ensures
        asked_upto(stats, k) == stats.take(k).fold_left(
            0int,
            |sum: int, s: CountryStat| sum + s.times_asked,
        ),
    decreases k,
{
    reveal(Seq::fold_left);
    if k > 0 {
        law_asked_totals_are_sums(stats, k - 1);
        assert(stats.take(k).drop_last() =~= stats.take(k - 1));
    }
}

fn write_country(s: &CountryStat, max: i64) -> (out: String)
    requires
        0 <= s.times_asked <= max,
        max > 0,
    ensures
        out@ == country_line(*s, max as int),
        exists|cells: nat, percentage: int|
            {
                &&& cells * max <= s.times_asked * 10 < (cells + 1) * max
                &&& s.total_answers <= 0 ==> percentage == 0
                &&& s.total_answers > 0 && s.correct_answers >= 0 ==> percentage * s.total_answers
                    <= s.correct_answers * 100 < (percentage + 1) * s.total_answers
                &&& out@ == #[trigger] clock::bar_text(cells, 10) + "  "@ + text::right_aligned(
                    text::decimal_int(s.times_asked as int),
                    2,
                ) + "x  "@ + text::right_aligned(#[trigger] text::decimal_int(percentage), 3)
                    + "% ✓  "@ + s.country@ + " ("@ + s.region@ + ")"@
            },
{
    let cells: i128 = s.times_asked as i128 * 10 / (max as i128);
    assert(0 <= cells <= 10) by (nonlinear_arith)
        requires
            cells == (s.times_asked * 10) / (max as int),
            0 <= s.times_asked <= max,
            max > 0,
    ;
    assert(cells * max <= s.times_asked * 10 < (cells + 1) * max) by (nonlinear_arith)
        requires
            cells == (s.times_asked * 10) / (max as int),
            0 <= s.times_asked <= max,
            max > 0,
    ;
    let ghost filled = cells as nat;
    let mut out = clock::bar(cells as usize, 10);
    out.append("  ");
    text::push_right_aligned(&mut out, text::int_text(s.times_asked as i128).as_str(), 2);
    out.append("x  ");
    let pct: i128 = percent_of(s.correct_answers, s.total_answers);
    text::push_right_aligned(&mut out, text::int_text(pct).as_str(), 3);
    out.append("% ✓  ");
    out.append(s.country.as_str());
    out.append(" (");
    out.append(s.region.as_str());
    out.append(")");
    assert(out@ == clock::bar_text(filled, 10) + "  "@ + text::right_aligned(
        text::decimal_int(s.times_asked as int),
        2,
    ) + "x  "@ + text::right_aligned(text::decimal_int(pct as int), 3) + "% ✓  "@ + s.country@
        + " ("@ + s.region@ + ")"@);
    out
}

/// The reply to a request for the countries.
pub fn countries_reply(stats: &Vec<CountryStat>) -> (out: String)
    requires
        forall|i: int| 0 <= i < stats@.len() ==> (#[trigger] stats@[i]).times_asked >= 0,
        stats@.len() > 0 ==> most_asked(stats@, stats@.len() as int) > 0,
    ensures
        out@ == if stats@.len() == 0 {
            "No guesses yet."@
        } else {
            countries_text(stats@)
        },
        stats@.len() > 0 ==> exists|lines: Seq<Seq<char>>|
            out@ == #[trigger] text::joined(lines, "\n"@) && lines.len() == stats@.len() + 2
                && lines[0] == "🗺️ **Countries** · "@ + text::decimal_int(
                asked_upto(stats@, stats@.len() as int),
            ) + " guesses"@ && lines[1] == ""@ && forall|i: int|
                2 <= i < lines.len() ==> (#[trigger] lines[i]) == country_line(
                    stats@[i - 2],
                    most_asked(stats@, stats@.len() as int),
                ),
{
    if stats.len() == 0 {
        return text::owned("No guesses yet.");
    }
    let n: usize = stats.len();
    let mut total: i128 = 0;
    let mut max: i64 = 0;
    let mut i: usize = 0;
    while i < n
        invariant
            i <= n,
            n == stats@.len(),
            total == asked_upto(stats@, i as int),
            -(0x8000_0000_0000_0000int * i) <= total <= 0x8000_0000_0000_0000int * i,
            max == most_asked(stats@, i as int),
        decreases n - i,
    {
        total = total + stats[i].times_asked as i128;
        if stats[i].times_asked > max {
            max = stats[i].times_asked;
        }
        i = i + 1;
    }
    let mut head = text::owned("🗺️ **Countries** · ");
    assert(total > i128::MIN);
    text::push_decimal_int(&mut head, total);
    head.append(" guesses");
    let ghost hv = head@;
    let mut lines: Vec<String> = Vec::new();
    lines.push(head);
    lines.push(text::owned(""));
    let ghost start = text::views(lines@);
    assert(start =~= seq![hv, ""@]);
    assert(start =~= start + country_lines(stats@, max as int, 0));
    let mut j: usize = 0;
    while j < n
        invariant
            j <= n,
            n == stats@.len(),
            max > 0,
            max == most_asked(stats@, n as int),
            forall|k: int| 0 <= k < stats@.len() ==> (#[trigger] stats@[k]).times_asked >= 0,
            text::views(lines@) == start + country_lines(stats@, max as int, j as nat),
        decreases n - j,
    {
        proof {
            lemma_most_asked(stats@, n as int, j as int);
            assert(stats@[j as int].times_asked >= 0);
        }
        let ghost before = text::views(lines@);
        lines.push(write_country(&stats[j], max));
        assert(text::views(lines@) =~= before.push(country_line(stats@[j as int], max as int)));
        j = j + 1;
        assert(text::views(lines@) =~= start + country_lines(stats@, max as int, j as nat));
    }
    text::join(&lines, "\n")
}

// ── Speed ────────────────────────────────────────────────────────────────────

/// How fast a player answers correctly.
pub struct SpeedEntry {
    pub user_id: String,
    /// Average number of seconds, as it is shown.
    pub avg_secs: String,
    pub sample_count: i64,
}

/// The line of a player.
pub open spec fn speed_line(i: int, e: SpeedEntry) -> Seq<char> {
    results::medal_text(i) + " "@ + text::right_aligned(text::decimal_int(i + 1), 2) + ". "@
        + e.user_id@ + " : "@ + e.avg_secs@ + "s avg · "@ + text::decimal_int(e.sample_count as int)
        + " correct"@
}

/// The lines of the first `k` players.
pub open spec fn speed_lines(board: Seq<SpeedEntry>, k: nat) -> Seq<Seq<char>> {
    Seq::new(k, |i: int| speed_line(i, board[i]))
}

/// The reply to a request for the fastest players.
pub fn fastest_reply(board: &Vec<SpeedEntry>) -> (out: String)
    ensures
        out@ == if board@.len() == 0 {
            "Not enough data yet · need at least 3 correct answers per player."@
        } else {
            text::joined(
                seq!["⚡ **Speed** · fastest correct answers (min. 3 samples)"@, ""@] + speed_lines(
                    board@,
                    board@.len(),
                ),
                "\n"@,
            )
        },
        board@.len() > 0 ==> exists|lines: Seq<Seq<char>>|
            out@ == #[trigger] text::joined(lines, "\n"@) && lines.len() == board@.len() + 2
                && lines[0] == "⚡ **Speed** · fastest correct answers (min. 3 samples)"@
                && lines[1] == ""@ && forall|i: int|
                2 <= i < lines.len() ==> (#[trigger] lines[i]) == results::medal_text(i - 2) + " "@
                    + text::right_aligned(text::decimal_int(i - 1), 2) + ". "@ + board@[i
                    - 2].user_id@ + " : "@ + board@[i - 2].avg_secs@ + "s avg · "@
                    + text::decimal_int(board@[i - 2].sample_count as int) + " correct"@,
{
    if board.len() == 0 {
        return text::owned("Not enough data yet · need at least 3 correct answers per player.");
    }
    let mut lines: Vec<String> = Vec::new();
    lines.push(text::owned("⚡ **Speed** · fastest correct answers (min. 3 samples)"));
    lines.push(text::owned(""));
    let ghost start = text::views(lines@);
    assert(start =~= seq!["⚡ **Speed** · fastest correct answers (min. 3 samples)"@, ""@]);
    assert(start =~= start + speed_lines(board@, 0));
    let mut i: usize = 0;
    while i < board.len()
        invariant
            i <= board@.len(),
            text::views(lines@) == start + speed_lines(board@, i as nat),
        decreases board@.len() - i,
    {
        let ghost before = text::views(lines@);
        let e = &board[i];
        let mut line = text::owned(results::medal(i));
        line.append(" ");
        text::push_right_aligned(&mut line, text::int_text(i as i128 + 1).as_str(), 2);
        line.append(". ");
        line.append(e.user_id.as_str());
        line.append(" : ");
        line.append(e.avg_secs.as_str());
        line.append("s avg · ");
        text::push_decimal_int(&mut line, e.sample_count as i128);
        line.append(" correct");
        let ghost shown = line@;
        lines.push(line);
        assert(text::views(lines@) =~= before.push(shown));
        i = i + 1;
        assert(text::views(lines@) =~= start + speed_lines(board@, i as nat));
    }
    text::join(&lines, "\n")
}

// ── Failures ─────────────────────────────────────────────────────────────────

/// What is read from the database for a reply.
#[derive(Clone, Copy, Debug, PartialEq, Eq, Structural)]
pub enum Question {
    Own,
    Countries,
    Speed,
}

/// The reply where the database cannot be read.
pub fn unreadable_reply(q: Question) -> (r: &'static str)
    ensures
        r@ == match q {
            Question::Own => "❌ Could not read stats from database."@,
            Question::Countries => "❌ Could not read country stats from database."@,
            Question::Speed => "❌ Could not read speed stats from database."@,
        },
{
    match q {
        Question::Own => "❌ Could not read stats from database.",
        Question::Countries => "❌ Could not read country stats from database.",
        Question::Speed => "❌ Could not read speed stats from database.",
    }
}

/// The reply to a request to wipe all history: `done` says whether that worked,
/// and is absent where the request was not confirmed.
pub fn reset_reply(done: Option<bool>) -> (r: &'static str)
    ensures
        r@ == match done {
            None => "⚠️ This deletes ALL game history.\nConfirm: !resetstats confirm"@,
            Some(true) => "✅ All stats have been reset."@,
            Some(false) => "❌ Reset failed — check the logs."@,
        },
{
    match done {
        None => "⚠️ This deletes ALL game history.\nConfirm: !resetstats confirm",
        Some(true) => "✅ All stats have been reset.",
        Some(false) => "❌ Reset failed — check the logs.",
    }
}

} // verus!
