//! What is posted when a guess or a round is over.

use vstd::prelude::*;

use crate::binary64;
use crate::bits::F64Bits;
use crate::clock;
use crate::sort;
use crate::sort::Ranked;
use crate::sources::GeoImage;
use crate::str_map::StrMap;
use crate::text;

verus! {

// ── Colours and medals ───────────────────────────────────────────────────────

/// The colours of the players, as red, green, blue and an emoji.
pub open spec fn palette(i: int) -> (u8, u8, u8, Seq<char>) {
    if i == 0 {
        (50u8, 120u8, 255u8, "🔵"@)
    } else if i == 1 {
        (220u8, 60u8, 60u8, "🔴"@)
    } else if i == 2 {
        (50u8, 195u8, 80u8, "🟢"@)
    } else if i == 3 {
        (180u8, 50u8, 220u8, "🟣"@)
    } else if i == 4 {
        (210u8, 165u8, 0u8, "🟡"@)
    } else if i == 5 {
        (0u8, 185u8, 210u8, "🩵"@)
    } else if i == 6 {
        (240u8, 120u8, 0u8, "🟠"@)
    } else {
        (200u8, 0u8, 140u8, "🩷"@)
    }
}

/// The colour of player `i`; the palette of eight repeats.
pub fn player_color(i: usize) -> (r: (u8, u8, u8, &'static str))
    ensures
        (r.0, r.1, r.2, r.3@) == palette(i as int % 8),
        i % 8 == 0 ==> r.0 == 50 && r.1 == 120 && r.2 == 255 && r.3@ == "🔵"@,
        i % 8 == 1 ==> r.0 == 220 && r.1 == 60 && r.2 == 60 && r.3@ == "🔴"@,
        i % 8 == 2 ==> r.0 == 50 && r.1 == 195 && r.2 == 80 && r.3@ == "🟢"@,
        i % 8 == 3 ==> r.0 == 180 && r.1 == 50 && r.2 == 220 && r.3@ == "🟣"@,
        i % 8 == 4 ==> r.0 == 210 && r.1 == 165 && r.2 == 0 && r.3@ == "🟡"@,
        i % 8 == 5 ==> r.0 == 0 && r.1 == 185 && r.2 == 210 && r.3@ == "🩵"@,
        i % 8 == 6 ==> r.0 == 240 && r.1 == 120 && r.2 == 0 && r.3@ == "🟠"@,
        i % 8 == 7 ==> r.0 == 200 && r.1 == 0 && r.2 == 140 && r.3@ == "🩷"@,
{
    let k: usize = i % 8;
    if k == 0 {
        (50, 120, 255, "🔵")
    } else if k == 1 {
        (220, 60, 60, "🔴")
    } else if k == 2 {
        (50, 195, 80, "🟢")
    } else if k == 3 {
        (180, 50, 220, "🟣")
    } else if k == 4 {
        (210, 165, 0, "🟡")
    } else if k == 5 {
        (0, 185, 210, "🩵")
    } else if k == 6 {
        (240, 120, 0, "🟠")
    } else {
        (200, 0, 140, "🩷")
    }
}

/// Eight players in a row have eight colours.
pub proof fn law_neighbours_have_different_colours(i: int, j: int)
    requires
        0 <= i < j < i + 8,
    ensures
        ({
            let a = palette(i % 8);
            let b = palette(j % 8);
            a.0 != b.0 || a.1 != b.1 || a.2 != b.2
        }),
{
    assert(i % 8 != j % 8);
}

/// The medal of place `i`, counted from 0.
pub open spec fn medal_text(i: int) -> Seq<char> {
    if i == 0 {
        "🥇"@
    } else if i == 1 {
        "🥈"@
    } else if i == 2 {
        "🥉"@
    } else {
        "  "@
    }
}

/// The medal of place `i`, counted from 0.
pub fn medal(i: usize) -> (r: &'static str)
    ensures
        r@ == medal_text(i as int),
        i == 0 ==> r@ == "🥇"@,
        i == 1 ==> r@ == "🥈"@,
        i == 2 ==> r@ == "🥉"@,
        i >= 3 ==> r@ == "  "@,
{
    if i == 0 {
        "🥇"
    } else if i == 1 {
        "🥈"
    } else if i == 2 {
        "🥉"
    } else {
        "  "
    }
}

// ── Reveal of one guess ──────────────────────────────────────────────────────

/// The place that is revealed: city and country, or the country alone.
pub open spec fn place_text(city: Option<Seq<char>>, country: Seq<char>) -> Seq<char> {
    match city {
        Some(c) => c + ", "@ + country,
        None => country,
    }
}

/// The place that is revealed.
pub fn location_text(img: &GeoImage) -> (out: String)
    ensures
        out@ == place_text(img@.city, img@.country),
        img.city matches Some(c) ==> out@ == c@ + ", "@ + img.country@,
        img.city is None ==> out@ == img.country@,
{
    match &img.city {
        Some(city) => {
            let mut out = city.clone();
            out.append(", ");
            out.append(img.country.as_str());
            out
        },
        None => img.country.clone(),
    }
}

/// One line of the reveal.
pub struct RevealRow {
    pub user_id: String,
    /// Link to the map of this guess.
    pub link: String,
    /// Distance from the target, as text.
    pub dist: String,
    pub score: i64,
}

/// A line with the link to the player's map.
pub open spec fn linked_row(i: int, row: RevealRow) -> Seq<char> {
    medal_text(i) + " "@ + row.user_id@ + " · "@ + row.link@ + " · "@ + row.dist@ + " · "@
        + text::decimal_int(row.score as int) + " pts"@
}

/// A line without a link.
pub open spec fn plain_row(i: int, row: RevealRow) -> Seq<char> {
    medal_text(i) + " "@ + row.user_id@ + " · "@ + row.dist@ + " · "@ + text::decimal_int(
        row.score as int,
    ) + " pts"@
}

/// All lines, with links or without.
pub open spec fn row_texts(rows: Seq<RevealRow>, links: bool) -> Seq<Seq<char>> {
    Seq::new(
        rows.len(),
        |i: int| if links {
            linked_row(i, rows[i])
        } else {
            plain_row(i, rows[i])
        },
    )
}

/// The heading: the place and a link to a map.
pub open spec fn heading(place: Seq<char>, nobody: bool, url: Seq<char>) -> Seq<char> {
    "📍 **"@ + place + "** ["@ + (if nobody {
        "Map"@
    } else {
        "All guesses"@
    }) + "]("@ + url + ")"@
}

/// Heading, empty line and rows in one text.
pub open spec fn report(
    place: Seq<char>,
    rows: Seq<RevealRow>,
    url: Seq<char>,
    links: bool,
) -> Seq<char> {
    let nobody = rows.len() == 0;
    text::joined(
        seq![heading(place, nobody, url), ""@] + (if nobody {
            seq!["Nobody guessed."@]
        } else {
            row_texts(rows, links)
        }),
        "\n"@,
    )
}

/// The largest message, in bytes, that is sent in one piece.
pub const MATRIX_SPLIT_THRESHOLD: usize = 28_000;

/// The messages of a reveal. One that is small enough is sent as it is. A larger
/// one becomes a summary without links, followed by the links: all in one
/// message where that is small enough, otherwise one message per player. Where
/// even the summary is too large it links to the map without avatars.
pub open spec fn reveal_plan(
    place: Seq<char>,
    rows: Seq<RevealRow>,
    url: Seq<char>,
    slim_url: Seq<char>,
) -> Seq<Seq<char>> {
    let full = report(place, rows, url, true);
    if text::byte_len(full) <= MATRIX_SPLIT_THRESHOLD || rows.len() == 0 {
        seq![full]
    } else {
        let fat = report(place, rows, url, false);
        let summary = if text::byte_len(fat) > MATRIX_SPLIT_THRESHOLD {
            report(place, rows, slim_url, false)
        } else {
            fat
        };
        let lines = row_texts(rows, true);
        let links = text::joined(lines, "\n"@);
        seq![summary] + (if text::byte_len(links) <= MATRIX_SPLIT_THRESHOLD {
            seq![links]
        } else {
            lines
        })
    }
}

fn row_line(i: usize, row: &RevealRow, links: bool) -> (out: String)
    ensures
        out@ == (if links {
            linked_row(i as int, *row)
        } else {
            plain_row(i as int, *row)
        }),
        links ==> out@ == medal_text(i as int) + " "@ + row.user_id@ + " · "@ + row.link@ + " · "@
            + row.dist@ + " · "@ + text::decimal_int(row.score as int) + " pts"@,
        !links ==> out@ == medal_text(i as int) + " "@ + row.user_id@ + " · "@ + row.dist@
            + " · "@ + text::decimal_int(row.score as int) + " pts"@,
{
    let mut out = text::owned(medal(i));
    out.append(" ");
    out.append(row.user_id.as_str());
    out.append(" · ");
    if links {
        out.append(row.link.as_str());
        out.append(" · ");
    }
    out.append(row.dist.as_str());
    out.append(" · ");
    text::push_decimal_int(&mut out, row.score as i128);
    out.append(" pts");
    out
}

fn row_lines(rows: &Vec<RevealRow>, links: bool) -> (out: Vec<String>)
    ensures
        text::views(out@) == row_texts(rows@, links),
{
    let mut out: Vec<String> = Vec::new();
    let mut i: usize = 0;
    while i < rows.len()
        invariant
            i <= rows@.len(),
            text::views(out@) =~= row_texts(rows@, links).take(i as int),
        decreases rows@.len() - i,
    {
        let ghost before = text::views(out@);
        out.push(row_line(i, &rows[i], links));
        assert(text::views(out@) =~= before.push(row_texts(rows@, links)[i as int]));
        i = i + 1;
    }
    assert(text::views(out@) =~= row_texts(rows@, links));
    out
}

fn report_text(place: &str, rows: &Vec<RevealRow>, url: &str, links: bool) -> (out: String)
    ensures
        out@ == report(place@, rows@, url@, links),
        text::occurs_at(
            out@,
            "📍 **"@ + place@ + "** ["@ + (if rows@.len() == 0 {
                "Map"@
            } else {
                "All guesses"@
            }) + "]("@ + url@ + ")"@,
            0,
        ),
        rows@.len() == 0 ==> text::contains_text(out@, "Nobody guessed."@),
        forall|i: int|
            0 <= i < rows@.len() ==> text::contains_text(
                out@,
                if links {
                    linked_row(i, #[trigger] rows@[i])
                } else {
                    plain_row(i, rows@[i])
                },
            ),
{
    let nobody: bool = rows.len() == 0;
    let mut head = text::owned("📍 **");
    head.append(place);
    head.append("** [");
    head.append(
        if nobody {
            "Map"
        } else {
            "All guesses"
        },
    );
    head.append("](");
    head.append(url);
    head.append(")");
    let mut lines: Vec<String> = Vec::new();
    lines.push(head);
    lines.push(text::owned(""));
    let ghost start = text::views(lines@);
    assert(start =~= seq![heading(place@, nobody, url@), ""@]);
    if nobody {
        lines.push(text::owned("Nobody guessed."));
        assert(text::views(lines@) =~= start + seq!["Nobody guessed."@]);
    } else {
        let mut rest = row_lines(rows, links);
        let ghost tail = text::views(rest@);
        lines.append(&mut rest);
        assert(text::views(lines@) =~= start + tail);
    }
    proof {
        let all = text::views(lines@);
        let whole = text::joined(all, "\n"@);
        let top = heading(place@, nobody, url@);
        assert(all[0] == top);
        text::law_joined_parts_follow_one_another(Seq::empty(), top, all.skip(1), "\n"@);
        assert(all =~= seq![top] + all.skip(1));
        assert(whole.subrange(0, top.len() as int) =~= top);
        if nobody {
            assert(all[2] == "Nobody guessed."@);
            text::lemma_joined_contains(all, "\n"@, 2);
        }
        assert forall|i: int| 0 <= i < rows@.len() implies text::contains_text(
            whole,
            if links {
                linked_row(i, #[trigger] rows@[i])
            } else {
                plain_row(i, rows@[i])
            },
        ) by {
            assert(all[i + 2] == row_texts(rows@, links)[i]);
            text::lemma_joined_contains(all, "\n"@, i + 2);
        }
    }
    text::join(&lines, "\n")
}

/// The messages that reveal a guess, in the order in which they are sent.
pub fn reveal_messages(place: &str, rows: &Vec<RevealRow>, url: &str, slim_url: &str) -> (out: Vec<
    String,
>)
    ensures
        text::views(out@) == reveal_plan(place@, rows@, url@, slim_url@),
        rows@.len() == 0 || text::byte_len(report(place@, rows@, url@, true)) <= 28_000
            ==> text::views(out@) == seq![report(place@, rows@, url@, true)],
        rows@.len() > 0 && text::byte_len(report(place@, rows@, url@, true)) > 28_000 ==> {
            &&& out@.len() >= 2
            &&& out@[0]@ == if text::byte_len(report(place@, rows@, url@, false)) <= 28_000 {
                report(place@, rows@, url@, false)
            } else {
                report(place@, rows@, slim_url@, false)
            }
            &&& text::byte_len(text::joined(row_texts(rows@, true), "\n"@)) <= 28_000
                ==> out@.len() == 2 && out@[1]@ == text::joined(row_texts(rows@, true), "\n"@)
            &&& text::byte_len(text::joined(row_texts(rows@, true), "\n"@)) > 28_000
                ==> out@.len() == rows@.len() + 1 && forall|i: int|
                0 <= i < rows@.len() ==> out@[i + 1]@ == linked_row(i, #[trigger] rows@[i])
        },
{
    let full = report_text(place, rows, url, true);
    let mut out: Vec<String> = Vec::new();
    if text::bytes_in(full.as_str()) <= MATRIX_SPLIT_THRESHOLD || rows.len() == 0 {
        out.push(full);
        assert(text::views(out@) =~= reveal_plan(place@, rows@, url@, slim_url@));
        return out;
    }
    let fat = report_text(place, rows, url, false);
    let summary = if text::bytes_in(fat.as_str()) > MATRIX_SPLIT_THRESHOLD {
        report_text(place, rows, slim_url, false)
    } else {
        fat
    };
    out.push(summary);
    let ghost start = text::views(out@);
    assert(start =~= seq![summary@]);
    let mut lines = row_lines(rows, true);
    let links = text::join(&lines, "\n");
    if text::bytes_in(links.as_str()) <= MATRIX_SPLIT_THRESHOLD {
        out.push(links);
        assert(text::views(out@) =~= start + seq![links@]);
    } else {
        let ghost tail = text::views(lines@);
        out.append(&mut lines);
        assert(text::views(out@) =~= start + tail);
    }
    proof {
        let vs = text::views(out@);
        assert(vs[0] == out@[0]@);
        assert(vs[1] == out@[1]@);
        if text::byte_len(text::joined(row_texts(rows@, true), "\n"@)) > 28_000 {
            assert forall|i: int| 0 <= i < rows@.len() implies out@[i + 1]@ == linked_row(
                i,
                #[trigger] rows@[i],
            ) by {
                assert(vs[i + 1] == out@[i + 1]@);
                assert(vs[i + 1] == row_texts(rows@, true)[i]);
            }
        }
    }
    out
}

/// However a reveal is split, the line of every player with the link to the map
/// is in one of the messages.
pub proof fn law_split_reveal_keeps_every_link(
    place: Seq<char>,
    rows: Seq<RevealRow>,
    url: Seq<char>,
    slim_url: Seq<char>,
    i: int,
)
    requires
        0 <= i < rows.len(),
    ensures
        exists|m: int|
            0 <= m < reveal_plan(place, rows, url, slim_url).len() && #[trigger] text::contains_text(
                reveal_plan(place, rows, url, slim_url)[m],
                linked_row(i, rows[i]),
            ),
{
    let plan = reveal_plan(place, rows, url, slim_url);
    let lines = row_texts(rows, true);
    let full = report(place, rows, url, true);
    assert(lines[i] == linked_row(i, rows[i]));
    if text::byte_len(full) <= MATRIX_SPLIT_THRESHOLD {
        let parts = seq![heading(place, false, url), ""@] + lines;
        assert(parts[i + 2] == lines[i]);
        text::lemma_joined_contains(parts, "\n"@, i + 2);
        assert(text::contains_text(plan[0], linked_row(i, rows[i])));
    } else if text::byte_len(text::joined(lines, "\n"@)) <= MATRIX_SPLIT_THRESHOLD {
        text::lemma_joined_contains(lines, "\n"@, i);
        assert(text::contains_text(plan[1], linked_row(i, rows[i])));
    } else {
        assert(plan[i + 1] == lines[i]);
        assert(lines[i].subrange(0, lines[i].len() as int) =~= lines[i]);
        assert(text::occurs_at(plan[i + 1], linked_row(i, rows[i]), 0));
        assert(text::contains_text(plan[i + 1], linked_row(i, rows[i])));
    }
}

/// Apart from the summary and from lines that stand alone, no message of a
/// reveal with answers is larger than the limit.
pub proof fn law_split_reveal_respects_the_limit(
    place: Seq<char>,
    rows: Seq<RevealRow>,
    url: Seq<char>,
    slim_url: Seq<char>,
    m: int,
)
    requires
        rows.len() > 0,
        0 <= m < reveal_plan(place, rows, url, slim_url).len(),
    ensures
        ({
            let plan = reveal_plan(place, rows, url, slim_url);
            ||| text::byte_len(plan[m]) <= MATRIX_SPLIT_THRESHOLD
            ||| m == 0 && plan[0] == report(place, rows, slim_url, false)
            ||| m > 0 && plan[m] == linked_row(m - 1, rows[m - 1])
        }),
{
    let plan = reveal_plan(place, rows, url, slim_url);
    let lines = row_texts(rows, true);
    if text::byte_len(report(place, rows, url, true)) > MATRIX_SPLIT_THRESHOLD && m > 0 {
        if text::byte_len(text::joined(lines, "\n"@)) > MATRIX_SPLIT_THRESHOLD {
            assert(plan[m] == lines[m - 1]);
        }
    }
}

/// The caption of the winner's map.
pub fn best_guess_caption(dist: &str) -> (out: String)
    ensures
        out@ == "🥇 Best guess · "@ + dist@ + " away"@,
{
    let mut out = text::owned("🥇 Best guess · ");
    out.append(dist);
    out.append(" away");
    out
}

/// The caption of the map with all guesses.
pub fn round_map_caption(n: usize) -> (out: String)
    ensures
        out@ == "🗺️ All "@ + text::decimal(n as nat) + " guesses this round"@,
{
    let mut out = text::owned("🗺️ All ");
    text::push_decimal(&mut out, n as u128);
    out.append(" guesses this round");
    out
}

/// Whether the map of the best guess and whether that of all guesses is posted,
/// where `n` players have answered.
pub fn maps_to_post(n: usize) -> (r: (bool, bool))
    ensures
        r == (n > 0, n >= 2),
{
    (n > 0, n >= 2)
}

/// The legend entries: the colour of each player, then the target.
pub open spec fn legend_parts(ids: Seq<Seq<char>>) -> Seq<Seq<char>> {
    Seq::new(ids.len(), |i: int| palette(i % 8).3 + " "@ + ids[i]).push("⬛ actual location"@)
}

/// The legend of the map with all guesses.
pub fn legend(ids: &Vec<String>) -> (out: String)
    ensures
        out@ == text::joined(legend_parts(text::views(ids@)), "   "@),
        exists|parts: Seq<Seq<char>>|
            out@ == #[trigger] text::joined(parts, "   "@) && parts.len() == ids@.len() + 1
                && parts.last() == "⬛ actual location"@ && forall|i: int|
                0 <= i < ids@.len() ==> (#[trigger] parts[i]) == palette(i % 8).3 + " "@
                    + ids@[i]@,
{
    let mut parts: Vec<String> = Vec::new();
    let ghost vs = text::views(ids@);
    let mut i: usize = 0;
    while i < ids.len()
        invariant
            i <= ids@.len(),
            vs == text::views(ids@),
            text::views(parts@) =~= legend_parts(vs).take(i as int),
        decreases ids@.len() - i,
    {
        let ghost before = text::views(parts@);
        let mut p = text::owned(player_color(i).3);
        p.append(" ");
        p.append(ids[i].as_str());
        parts.push(p);
        assert(text::views(parts@) =~= before.push(legend_parts(vs)[i as int]));
        i = i + 1;
    }
    let ghost before = text::views(parts@);
    parts.push(text::owned("⬛ actual location"));
    assert(text::views(parts@) =~= before.push("⬛ actual location"@));
    assert(text::views(parts@) =~= legend_parts(vs));
    text::join(&parts, "   ")
}

// ── Results of a round ───────────────────────────────────────────────────────

/// The distances of a player in a round.
pub struct RoundStat {
    pub user_id: String,
    pub avg_distance: F64Bits,
    /// Average and best distance as text.
    pub avg_text: String,
    pub best_text: String,
}

/// A player in the results of a round.
pub struct RoundResult {
    pub user_id: String,
    pub score: i64,
    pub avg_distance: F64Bits,
    pub avg_text: String,
    pub best_text: String,
}

/// Whether `a` ranks before `b` or ties with it: more points first, then the
/// smaller average distance, then the user identifier.
pub open spec fn result_before(a: RoundResult, b: RoundResult) -> bool {
    if a.score != b.score {
        a.score > b.score
    } else if !a.avg_distance.is_nan() && !b.avg_distance.is_nan() && a.avg_distance.rank()
        != b.avg_distance.rank() {
        a.avg_distance.rank() < b.avg_distance.rank()
    } else {
        text::text_le(a.user_id@, b.user_id@)
    }
}

impl Ranked for RoundResult {
    open spec fn comparable(&self) -> bool {
        !self.avg_distance.is_nan()
    }

    open spec fn before_eq(&self, other: &Self) -> bool {
        result_before(*self, *other)
    }

    proof fn order_is_total(a: &Self, b: &Self) {
        text::lemma_text_le_total(a.user_id@, b.user_id@);
    }

    proof fn order_is_transitive(a: &Self, b: &Self, c: &Self) {
        if text::text_le(a.user_id@, b.user_id@) && text::text_le(b.user_id@, c.user_id@) {
            text::lemma_text_le_transitive(a.user_id@, b.user_id@, c.user_id@);
        }
    }

    fn goes_before(&self, other: &Self) -> (r: bool) {
        if self.score != other.score {
            self.score > other.score
        } else if !self.avg_distance.not_a_number() && !other.avg_distance.not_a_number()
            && self.avg_distance.rank_of() != other.avg_distance.rank_of() {
            self.avg_distance.rank_of() < other.avg_distance.rank_of()
        } else {
            text::text_at_most(self.user_id.as_str(), other.user_id.as_str())
        }
    }
}

/// The largest finite binary64 value.
pub const LARGEST_DISTANCE: u64 = 0x7fef_ffff_ffff_ffff;

/// The first entry of a player, if any.
pub open spec fn stat_of(stats: Seq<RoundStat>, user: Seq<char>) -> Option<RoundStat>
    decreases stats.len(),
{
    if stats.len() == 0 {
        None
    } else if stats[0].user_id@ == user {
        Some(stats[0])
    } else {
        stat_of(stats.skip(1), user)
    }
}

/// Whether `r` is the result of `user`: the points from the score table, the
/// distances from the statistics or, where there are none, "n/a" and the
/// largest distance there is.
pub open spec fn is_result_of(
    r: RoundResult,
    user: Seq<char>,
    scores: Map<Seq<char>, i64>,
    stats: Seq<RoundStat>,
) -> bool {
    &&& r.user_id@ == user
    &&& r.score == scores[user]
    &&& match stat_of(stats, user) {
        Some(s) => r.avg_distance == s.avg_distance && r.avg_text@ == s.avg_text@ && r.best_text@
            == s.best_text@,
        None => r.avg_distance.bits == LARGEST_DISTANCE && r.avg_text@ == "n/a"@ && r.best_text@
            == "n/a"@,
    }
}

/// Whether `results` holds the result of each player once.
pub open spec fn results_of(
    results: Seq<RoundResult>,
    users: Seq<Seq<char>>,
    scores: Map<Seq<char>, i64>,
    stats: Seq<RoundStat>,
) -> bool {
    &&& results.len() == users.len()
    &&& forall|i: int|
        0 <= i < results.len() ==> is_result_of(#[trigger] results[i], users[i], scores, stats)
}

fn find_stat<'a>(stats: &'a Vec<RoundStat>, user: &str) -> (r: Option<&'a RoundStat>)
    ensures
        r is Some == stat_of(stats@, user@) is Some,
        r matches Some(s) ==> Some(*s) == stat_of(stats@, user@),
        r matches Some(s) ==> s.user_id@ == user@ && stats@.contains(*s),
        r is None ==> forall|i: int|
            0 <= i < stats@.len() ==> (#[trigger] stats@[i]).user_id@ != user@,
{
    let mut i: usize = 0;
    assert(stats@.skip(0) =~= stats@);
    while i < stats.len()
        invariant
            i <= stats@.len(),
            stat_of(stats@, user@) == stat_of(stats@.skip(i as int), user@),
            forall|k: int| 0 <= k < i ==> (#[trigger] stats@[k]).user_id@ != user@,
        decreases stats@.len() - i,
    {
        assert(stats@.skip(i as int).skip(1) =~= stats@.skip(i as int + 1));
        if text::same_text(stats[i].user_id.as_str(), user) {
            return Some(&stats[i]);
        }
        i = i + 1;
    }
    None
}

proof fn lemma_stat_of(stats: Seq<RoundStat>, user: Seq<char>, i: int)
    requires
        0 <= i <= stats.len(),
        forall|k: int| 0 <= k < i ==> (#[trigger] stats[k]).user_id@ != user,
        i < stats.len() ==> stats[i].user_id@ == user,
    ensures
        stat_of(stats, user) == if i < stats.len() {
            Some(stats[i])
        } else {
            None
        },
    decreases i,
{
    if i > 0 {
        assert(stats[0].user_id@ != user);
        assert forall|k: int| 0 <= k < i - 1 implies (#[trigger] stats.skip(1)[k]).user_id@
            != user by {
            assert(stats.skip(1)[k] == stats[k + 1]);
        }
        if i < stats.len() {
            assert(stats.skip(1)[i - 1] == stats[i]);
        }
        lemma_stat_of(stats.skip(1), user, i - 1);
    }
}

/// A result carries the points and the distances of its player. A player without distances
/// is shown as "n/a" and counts as farther off than everybody else.
pub proof fn law_results_carry_the_players_numbers(
    r: RoundResult,
    user: Seq<char>,
    scores: Map<Seq<char>, i64>,
    stats: Seq<RoundStat>,
    i: int,
)
    requires
        is_result_of(r, user, scores, stats),
        0 <= i <= stats.len(),
        forall|k: int| 0 <= k < i ==> (#[trigger] stats[k]).user_id@ != user,
        i < stats.len() ==> stats[i].user_id@ == user,
    ensures
        r.user_id@ == user,
        r.score == scores[user],
        i < stats.len() ==> r.avg_distance == stats[i].avg_distance && r.avg_text@
            == stats[i].avg_text@ && r.best_text@ == stats[i].best_text@,
        i == stats.len() ==> r.avg_distance.bits == 0x7fef_ffff_ffff_ffff && r.avg_text@ == "n/a"@
            && r.best_text@ == "n/a"@,
{
    lemma_stat_of(stats, user, i);
}

fn collect_results(scores: &StrMap<i64>, stats: &Vec<RoundStat>) -> (r: Vec<RoundResult>)
    ensures
        results_of(r@, scores.keys(), scores@, stats@),
        scores@.dom() == scores.keys().to_set(),
        scores.keys().no_duplicates(),
{
    let n: usize = scores.len();
    let mut r: Vec<RoundResult> = Vec::new();
    let mut i: usize = 0;
    while i < n
        invariant
            i <= n,
            n == scores.keys().len(),
            r@.len() == i,
            forall|k: int|
                0 <= k < i ==> is_result_of(#[trigger] r@[k], scores.keys()[k], scores@, stats@),
        decreases n - i,
    {
        let (user, score) = scores.entry(i);
        let row = match find_stat(stats, user.as_str()) {
            Some(s) => RoundResult {
                user_id: user.clone(),
                score: *score,
                avg_distance: s.avg_distance,
                avg_text: s.avg_text.clone(),
                best_text: s.best_text.clone(),
            },
            None => RoundResult {
                user_id: user.clone(),
                score: *score,
                avg_distance: F64Bits { bits: LARGEST_DISTANCE },
                avg_text: text::owned("n/a"),
                best_text: text::owned("n/a"),
            },
        };
        r.push(row);
        i = i + 1;
    }
    r
}

/// A number of cells within a bar of ten.
pub open spec fn cells_within(n: int) -> nat {
    if n < 0 {
        0
    } else if n > 10 {
        10
    } else {
        n as nat
    }
}

/// A number of cells within a bar of ten.
pub(crate) fn within_ten(n: i64) -> (r: usize)
    ensures
        r == cells_within(n as int),
        r <= 10,
{
    if n < 0 {
        0
    } else if n > 10 {
        10
    } else {
        n as usize
    }
}

/// How many of ten cells stand for `score` out of `max`: ten times their quotient,
/// rounded to the nearest; all of them for points where none can be had.
pub open spec fn score_cells(score: int, max: int) -> nat {
    if max > 0 {
        cells_within(
            binary64::whole(
                binary64::product(
                    binary64::quotient(binary64::float_of(score), binary64::float_of(max)),
                    binary64::float_of(10),
                ),
            ),
        )
    } else if score > 0 {
        10
    } else {
        0
    }
}

fn cells_of(score: i64, max: i64) -> (r: usize)
    ensures
        r == score_cells(score as int, max as int),
        r <= 10,
        max <= 0 && score > 0 ==> r == 10,
        max <= 0 && score <= 0 ==> r == 0,
        max > 0 ==> ({
            let cells = binary64::whole(
                binary64::product(
                    binary64::quotient(
                        binary64::float_of(score as int),
                        binary64::float_of(max as int),
                    ),
                    binary64::float_of(10),
                ),
            );
            &&& cells <= 0 ==> r == 0
            &&& cells >= 10 ==> r == 10
            &&& 0 <= cells <= 10 ==> r == cells
        }),
{
    if max > 0 {
        let share = binary64::divide(binary64::from_int(score), binary64::from_int(max));
        within_ten(binary64::round_to_int(binary64::multiply(share, binary64::from_int(10))))
    } else if score > 0 {
        10
    } else {
        0
    }
}

/// The two lines of a player in the results.
pub open spec fn result_lines(i: int, r: RoundResult, n: nat) -> Seq<Seq<char>> {
    seq![
        medal_text(i) + " "@ + text::right_aligned(text::decimal_int(i + 1), 2) + ". "@ + r.user_id@
            + " : "@ + text::decimal_int(
            if n > 0 {
                text::trunc_div(r.score as int, n as int)
            } else {
                0
            },
        ) + " pts/guess"@,
        "      "@ + clock::bar_text(score_cells(r.score as int, 5000 * n as int), 10) + "  ⌀ "@
            + r.avg_text@ + "  🏅 "@ + r.best_text@,
    ]
}

/// A result gives the place, the player, the points per guess without what is left over,
/// how much of the most that can be had was got, and the distances.
pub proof fn law_result_lines(i: int, r: RoundResult, n: nat)
    ensures
        result_lines(i, r, n).len() == 2,
        ({
            let per = if n > 0 {
                text::trunc_div(r.score as int, n as int)
            } else {
                0
            };
            &&& result_lines(i, r, n)[0] == medal_text(i) + " "@ + text::right_aligned(
                text::decimal_int(i + 1),
                2,
            ) + ". "@ + r.user_id@ + " : "@ + text::decimal_int(per) + " pts/guess"@
            &&& n > 0 && r.score >= 0 ==> per * n <= r.score < per * n + n
        }),
        result_lines(i, r, n)[1] == "      "@ + clock::bar_text(
            score_cells(r.score as int, 5000 * n as int),
            10,
        ) + "  ⌀ "@ + r.avg_text@ + "  🏅 "@ + r.best_text@,
{
    if n > 0 {
        text::law_division_rounds_towards_zero(r.score as int, n as int);
    }
}

/// The player at place `i`, counted from 0, is shown in two lines at twice that place.
pub proof fn law_results_are_listed_in_order(ranked: Seq<RoundResult>, n: nat, k: int, i: int)
    requires
        0 <= i < k <= ranked.len(),
    ensures
        results_lines(ranked, n, k).len() == 2 * k,
        results_lines(ranked, n, k)[2 * i] == result_lines(i, ranked[i], n)[0],
        results_lines(ranked, n, k)[2 * i + 1] == result_lines(i, ranked[i], n)[1],
    decreases k,
{
    lemma_results_len(ranked, n, k);
    lemma_results_len(ranked, n, k - 1);
    if i < k - 1 {
        law_results_are_listed_in_order(ranked, n, k - 1, i);
    }
}

proof fn lemma_results_len(ranked: Seq<RoundResult>, n: nat, k: int)
    requires
        0 <= k <= ranked.len(),
    ensures
        results_lines(ranked, n, k).len() == 2 * k,
    decreases k,
{
    if k > 0 {
        lemma_results_len(ranked, n, k - 1);
    }
}

/// Nobody is listed behind a player with fewer points, or with as many points and a
/// greater distance, where all distances are numbers.
pub proof fn law_results_are_ranked(
    rows: Seq<RoundResult>,
    ranked: Seq<RoundResult>,
    i: int,
    j: int,
)
    requires
        sort::is_stable_sort(rows, ranked),
        forall|k: int| 0 <= k < rows.len() ==> !(#[trigger] rows[k]).avg_distance.is_nan(),
        0 <= i < j < ranked.len(),
    ensures
        ({
            let a = ranked[i];
            let b = ranked[j];
            ||| a.score > b.score
            ||| a.score == b.score && a.avg_distance.rank() < b.avg_distance.rank()
            ||| a.score == b.score && a.avg_distance.rank() == b.avg_distance.rank()
                && text::text_le(a.user_id@, b.user_id@)
        }),
{
    assert forall|k: int| 0 <= k < rows.len() implies (#[trigger] rows[k]).comparable() by {
        assert(!rows[k].avg_distance.is_nan());
    }
    assert(sort::all_comparable(rows));
    assert(ranked[i].before_eq(&ranked[j]));
    sort::lemma_same_members(rows, ranked);
    assert(rows.contains(ranked[i]) && rows.contains(ranked[j]));
    let p = choose|p: int| 0 <= p < rows.len() && rows[p] == ranked[i];
    let q = choose|q: int| 0 <= q < rows.len() && rows[q] == ranked[j];
    assert(!rows[p].avg_distance.is_nan() && !rows[q].avg_distance.is_nan());
}

/// The lines of the first `k` players.
pub open spec fn results_lines(ranked: Seq<RoundResult>, n: nat, k: int) -> Seq<Seq<char>>
    decreases k,
{
    if k <= 0 {
        Seq::empty()
    } else {
        results_lines(ranked, n, k - 1) + result_lines(k - 1, ranked[k - 1], n)
    }
}

/// The results of a round of `n` guesses.
pub open spec fn results_text(ranked: Seq<RoundResult>, n: nat) -> Seq<char> {
    text::joined(
        seq![
            "🌍 **Round over!** "@ + text::decimal(n) + " guess(es) · max "@ + text::decimal_int(
                5000 * n as int,
            ) + " pts"@,
            ""@,
        ] + results_lines(ranked, n, ranked.len() as int),
        "\n"@,
    )
}

fn write_results(ranked: &Vec<RoundResult>, n: u32) -> (out: String)
    ensures
        out@ == results_text(ranked@, n as nat),
        text::occurs_at(
            out@,
            "🌍 **Round over!** "@ + text::decimal(n as nat) + " guess(es) · max "@
                + text::decimal_int(5000 * n) + " pts"@,
            0,
        ),
{
    let max: i64 = 5000 * n as i64;
    let mut head = text::owned("🌍 **Round over!** ");
    text::push_decimal(&mut head, n as u128);
    head.append(" guess(es) · max ");
    text::push_decimal_int(&mut head, max as i128);
    head.append(" pts");
    let mut lines: Vec<String> = Vec::new();
    lines.push(head);
    lines.push(text::owned(""));
    let ghost start = text::views(lines@);
    assert(start =~= seq![head@, ""@]);
    let mut i: usize = 0;
    assert(start =~= start + results_lines(ranked@, n as nat, 0));
    while i < ranked.len()
        invariant
            i <= ranked@.len(),
            max == 5000 * n,
            text::views(lines@) == start + results_lines(ranked@, n as nat, i as int),
        decreases ranked@.len() - i,
    {
        let ghost before = text::views(lines@);
        let r = &ranked[i];
        let mut a = text::owned(medal(i));
        a.append(" ");
        text::push_right_aligned(&mut a, text::int_text(i as i128 + 1).as_str(), 2);
        a.append(". ");
        a.append(r.user_id.as_str());
        a.append(" : ");
        let per: i128 = if n > 0 {
            text::divide(r.score as i128, n as i128)
        } else {
            0
        };
        text::push_decimal_int(&mut a, per);
        a.append(" pts/guess");
        let mut b = text::owned("      ");
        b.append(clock::bar(cells_of(r.score, max), 10).as_str());
        b.append("  ⌀ ");
        b.append(r.avg_text.as_str());
        b.append("  🏅 ");
        b.append(r.best_text.as_str());
        let ghost av = a@;
        let ghost bv = b@;
        lines.push(a);
        lines.push(b);
        assert(text::views(lines@) =~= before + seq![av, bv]);
        assert(seq![av, bv] =~= result_lines(i as int, ranked@[i as int], n as nat));
        assert(text::views(lines@) =~= start + results_lines(ranked@, n as nat, i as int + 1));
        i = i + 1;
    }
    proof {
        let all = text::views(lines@);
        assert(all[0] == start[0]);
        text::law_joined_parts_follow_one_another(Seq::empty(), all[0], all.skip(1), "\n"@);
        assert(all =~= seq![all[0]] + all.skip(1));
        let whole = text::joined(all, "\n"@);
        assert(whole.subrange(0, all[0].len() as int) =~= all[0]);
    }
    text::join(&lines, "\n")
}

/// The results of a round: every player once, in the order of rank. Where
/// nobody has points at all, it says that nobody played.
pub fn round_results(scores: &StrMap<i64>, stats: &Vec<RoundStat>, n: u32) -> (out: String)
    ensures
        scores@.dom().len() == 0 ==> out@ == "🌍 Round over · nobody played."@,
        scores@.dom().len() > 0 ==> exists|rows: Seq<RoundResult>, ranked: Seq<RoundResult>|
            #[trigger] results_of(rows, scores.keys(), scores@, stats@)
                && #[trigger] sort::is_stable_sort(rows, ranked) && out@ == results_text(
                ranked,
                n as nat,
            ),
        scores@.dom() == scores.keys().to_set(),
        scores.keys().no_duplicates(),
{
    if scores.len() == 0 {
        return text::owned("🌍 Round over · nobody played.");
    }
    let rows = collect_results(scores, stats);
    let ghost raw = rows@;
    let ranked = sort::sort_stable(rows);
    assert(sort::is_stable_sort(raw, ranked@));
    write_results(&ranked, n)
}

} // verus!
