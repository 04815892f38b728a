//! When games start: one-time games, overrides of the recurring schedule, and
//! what happens on each tick of the clock.

use vstd::prelude::*;

use crate::clock;
use crate::clock::LocalClock;
use crate::config;
use crate::config::ScheduleConfig;
use crate::round::GameOverrides;
use crate::state::DayNumber;
use crate::state::ScheduledOnce;
use crate::state::ScheduledOnceView;
use crate::state::ScheduleOverrides;
use crate::state::State;
use crate::text;

verus! {

// ── Options ──────────────────────────────────────────────────────────────────

/// Whether an executable result and its description agree.
pub open spec fn agrees<T>(r: Result<T, String>, s: Result<T, Seq<char>>) -> bool {
    match (r, s) {
        (Ok(a), Ok(b)) => a == b,
        (Err(a), Err(b)) => a@ == b,
        _ => false,
    }
}

/// What follows `prefix` in `arg`, where `arg` begins with it.
pub open spec fn after_prefix(arg: Seq<char>, prefix: Seq<char>) -> Option<Seq<char>> {
    if text::occurs_at(arg, prefix, 0) {
        Some(arg.skip(prefix.len() as int))
    } else {
        None
    }
}

fn strip_prefix(arg: &str, prefix: &str) -> (r: Option<String>)
    ensures
        r is Some == after_prefix(arg@, prefix@) is Some,
        r matches Some(v) ==> Some(v@) == after_prefix(arg@, prefix@),
{
    let a = text::chars_of(arg);
    let p = text::chars_of(prefix);
    if text::matches_at(&a, &p, 0) {
        let v = text::string_of(&a, p.len(), a.len());
        assert(v@ =~= arg@.skip(prefix@.len() as int));
        Some(v)
    } else {
        None
    }
}

/// A text with a quoted value in it.
pub open spec fn quoting(before: Seq<char>, value: Seq<char>, after: Seq<char>) -> Seq<char> {
    before + value + after
}

fn quoted(before: &str, value: &str, after: &str) -> (out: String)
    ensures
        out@ == quoting(before@, value@, after@),
        out@ == before@ + value@ + after@,
{
    let mut out = text::owned(before);
    out.append(value);
    out.append(after);
    out
}

/// Seconds in an option.
pub open spec fn seconds_option(name: Seq<char>, v: Seq<char>) -> Result<u64, Seq<char>> {
    match text::parsed(v, u64::MAX as nat) {
        Some(n) => Ok(n as u64),
        None => Err(quoting("❌ Invalid "@ + name + " \""@, v, "\" · must be seconds."@)),
    }
}

fn read_seconds(name: &str, v: &str) -> (r: Result<u64, String>)
    ensures
        agrees(r, seconds_option(name@, v@)),
        text::parsed(v@, u64::MAX as nat) matches Some(n) ==> (r matches Ok(k) && k == n),
        text::parsed(v@, u64::MAX as nat) is None ==> (r matches Err(e) && e@ == "❌ Invalid "@
            + name@ + " \""@ + v@ + "\" · must be seconds."@),
{
    match text::parse_number(v, u64::MAX) {
        Some(n) => Ok(n),
        None => {
            let mut head = text::owned("❌ Invalid ");
            head.append(name);
            head.append(" \"");
            Err(quoted(head.as_str(), v, "\" · must be seconds."))
        },
    }
}

/// A positive number in an option.
pub open spec fn count_option(name: Seq<char>, v: Seq<char>, max: u64) -> Result<u64, Seq<char>> {
    match text::parsed(v, max as nat) {
        Some(n) => if n >= 1 {
            Ok(n as u64)
        } else {
            Err("❌ "@ + name + " must be at least 1."@)
        },
        None => Err(quoting("❌ Invalid "@ + name + " \""@, v, "\" · must be a number."@)),
    }
}

fn read_count(name: &str, v: &str, max: u64) -> (r: Result<u64, String>)
    ensures
        agrees(r, count_option(name@, v@, max)),
        text::parsed(v@, max as nat) matches Some(n) ==> (n >= 1 ==> (r matches Ok(k) && k == n)),
        text::parsed(v@, max as nat) == Some(0nat) ==> (r matches Err(e) && e@ == "❌ "@ + name@
            + " must be at least 1."@),
        text::parsed(v@, max as nat) is None ==> (r matches Err(e) && e@ == "❌ Invalid "@ + name@
            + " \""@ + v@ + "\" · must be a number."@),
        r matches Ok(n) ==> 1 <= n <= max,
{
    match text::parse_number(v, max) {
        Some(n) => {
            if n >= 1 {
                Ok(n)
            } else {
                let mut out = text::owned("❌ ");
                out.append(name);
                out.append(" must be at least 1.");
                Err(out)
            }
        },
        None => {
            let mut head = text::owned("❌ Invalid ");
            head.append(name);
            head.append(" \"");
            Err(quoted(head.as_str(), v, "\" · must be a number."))
        },
    }
}

// ── One-time games ───────────────────────────────────────────────────────────

/// The overrides that the options of a one-time game give.
pub open spec fn game_option(arg: Seq<char>, acc: GameOverrides) -> Result<GameOverrides, Seq<char>> {
    if let Some(v) = after_prefix(arg, "reminder="@) {
        match seconds_option("reminder"@, v) {
            Ok(n) => Ok(GameOverrides { reminder_before_secs: Some(n), ..acc }),
            Err(e) => Err(e),
        }
    } else if let Some(v) = after_prefix(arg, "timeout="@) {
        match seconds_option("timeout"@, v) {
            Ok(n) => Ok(GameOverrides { answer_timeout_secs: Some(n), ..acc }),
            Err(e) => Err(e),
        }
    } else if let Some(v) = after_prefix(arg, "guesses="@) {
        match count_option("guesses"@, v, u32::MAX as u64) {
            Ok(n) => Ok(GameOverrides { guesses_per_round: Some(n as u32), ..acc }),
            Err(e) => Err(e),
        }
    } else {
        Err(
            quoting(
                "❌ Unknown argument \""@,
                arg,
                "\"\nUsage: !schedulegeo HH:MM [reminder=N] [timeout=N] [guesses=N]"@,
            ),
        )
    }
}

/// The overrides that the options from position `i` on give; a later option
/// replaces an earlier one, and the first mistake is reported.
pub open spec fn game_options(args: Seq<Seq<char>>, i: int, acc: GameOverrides) -> Result<
    GameOverrides,
    Seq<char>,
>
    decreases args.len() - i,
{
    if i >= args.len() {
        Ok(acc)
    } else {
        match game_option(args[i], acc) {
            Ok(next) => game_options(args, i + 1, next),
            Err(e) => Err(e),
        }
    }
}

fn read_game_option(arg: &str, acc: GameOverrides) -> (r: Result<GameOverrides, String>)
    ensures
        agrees(r, game_option(arg@, acc)),
        !text::occurs_at(arg@, "reminder="@, 0) && !text::occurs_at(arg@, "timeout="@, 0) && !text::occurs_at(arg@, "guesses="@, 0) ==> (r matches Err(e) && e@ == "❌ Unknown argument \""@ + arg@ + "\"\nUsage: !schedulegeo HH:MM [reminder=N] [timeout=N] [guesses=N]"@),
{
    if let Some(v) = strip_prefix(arg, "reminder=") {
        match read_seconds("reminder", v.as_str()) {
            Ok(n) => Ok(
                GameOverrides {
                    reminder_before_secs: Some(n),
                    answer_timeout_secs: acc.answer_timeout_secs,
                    guesses_per_round: acc.guesses_per_round,
                },
            ),
            Err(e) => Err(e),
        }
    } else if let Some(v) = strip_prefix(arg, "timeout=") {
        match read_seconds("timeout", v.as_str()) {
            Ok(n) => Ok(
                GameOverrides {
                    reminder_before_secs: acc.reminder_before_secs,
                    answer_timeout_secs: Some(n),
                    guesses_per_round: acc.guesses_per_round,
                },
            ),
            Err(e) => Err(e),
        }
    } else if let Some(v) = strip_prefix(arg, "guesses=") {
        match read_count("guesses", v.as_str(), u32::MAX as u64) {
            Ok(n) => Ok(
                GameOverrides {
                    reminder_before_secs: acc.reminder_before_secs,
                    answer_timeout_secs: acc.answer_timeout_secs,
                    guesses_per_round: Some(n as u32),
                },
            ),
            Err(e) => Err(e),
        }
    } else {
        Err(
            quoted(
                "❌ Unknown argument \"",
                arg,
                "\"\nUsage: !schedulegeo HH:MM [reminder=N] [timeout=N] [guesses=N]",
            ),
        )
    }
}

/// No overrides.
pub open spec fn none_given() -> GameOverrides {
    GameOverrides {
        reminder_before_secs: None,
        answer_timeout_secs: None,
        guesses_per_round: None,
    }
}

fn read_game_options(args: &Vec<String>) -> (r: Result<GameOverrides, String>)
    requires
        args@.len() >= 2,
    ensures
        agrees(r, game_options(text::views(args@), 2, none_given())),
{
    let mut acc = GameOverrides {
        reminder_before_secs: None,
        answer_timeout_secs: None,
        guesses_per_round: None,
    };
    let ghost vs = text::views(args@);
    let mut i: usize = 2;
    while i < args.len()
        invariant
            2 <= i <= args@.len(),
            vs == text::views(args@),
            game_options(vs, i as int, acc) == game_options(vs, 2, none_given()),
        decreases args@.len() - i,
    {
        assert(vs[i as int] == args@[i as int]@);
        match read_game_option(args[i].as_str(), acc) {
            Ok(next) => {
                acc = next;
            },
            Err(e) => {
                return Err(e);
            },
        }
        i = i + 1;
    }
    Ok(acc)
}

/// Each option of a one-time game sets what it names to the number it gives, and nothing
/// else; no guesses at all, and a number that is too large, is refused.
pub proof fn law_game_options_set_what_they_name(n: nat, acc: GameOverrides)
    ensures
        ({
            let r = game_option("reminder="@ + text::decimal(n), acc);
            &&& r is Ok <==> n <= u64::MAX
            &&& r matches Ok(o) ==> o.reminder_before_secs == Some(n as u64)
                && o.answer_timeout_secs == acc.answer_timeout_secs && o.guesses_per_round
                == acc.guesses_per_round
        }),
        ({
            let r = game_option("timeout="@ + text::decimal(n), acc);
            &&& r is Ok <==> n <= u64::MAX
            &&& r matches Ok(o) ==> o.answer_timeout_secs == Some(n as u64)
                && o.reminder_before_secs == acc.reminder_before_secs && o.guesses_per_round
                == acc.guesses_per_round
        }),
        ({
            let r = game_option("guesses="@ + text::decimal(n), acc);
            &&& r is Ok <==> 1 <= n <= u32::MAX
            &&& r matches Ok(o) ==> o.guesses_per_round == Some(n as u32)
                && o.reminder_before_secs == acc.reminder_before_secs && o.answer_timeout_secs
                == acc.answer_timeout_secs
        }),
{
    lemma_option_names(text::decimal(n));
    text::law_written_numbers_read_back(n, u64::MAX as nat);
    text::law_written_numbers_read_back(n, u32::MAX as nat);
}

/// An option begins with its own name and with no other, and what follows is its value.
proof fn lemma_option_names(v: Seq<char>)
    ensures
        after_prefix("reminder="@ + v, "reminder="@) == Some(v),
        after_prefix("timeout="@ + v, "timeout="@) == Some(v),
        after_prefix("guesses="@ + v, "guesses="@) == Some(v),
        after_prefix("photos="@ + v, "photos="@) == Some(v),
        after_prefix("timeout="@ + v, "reminder="@) is None,
        after_prefix("guesses="@ + v, "reminder="@) is None,
        after_prefix("guesses="@ + v, "timeout="@) is None,
        after_prefix("photos="@ + v, "guesses="@) is None,
        after_prefix("timeout="@ + v, "guesses="@) is None,
        after_prefix("timeout="@ + v, "photos="@) is None,
{
    reveal_strlit("reminder=");
    reveal_strlit("timeout=");
    reveal_strlit("guesses=");
    reveal_strlit("photos=");
    lemma_prefix("reminder="@, v);
    lemma_prefix("timeout="@, v);
    lemma_prefix("guesses="@, v);
    lemma_prefix("photos="@, v);
    lemma_no_prefix("timeout="@ + v, "reminder="@);
    lemma_no_prefix("guesses="@ + v, "reminder="@);
    lemma_no_prefix("guesses="@ + v, "timeout="@);
    lemma_no_prefix("photos="@ + v, "guesses="@);
    lemma_no_prefix("timeout="@ + v, "guesses="@);
    lemma_no_prefix("timeout="@ + v, "photos="@);
}

proof fn lemma_prefix(p: Seq<char>, v: Seq<char>)
    ensures
        after_prefix(p + v, p) == Some(v),
{
    assert((p + v).subrange(0, p.len() as int) =~= p);
    assert((p + v).skip(p.len() as int) =~= v);
}

proof fn lemma_no_prefix(s: Seq<char>, p: Seq<char>)
    requires
        p.len() > 0,
        s.len() > 0,
        s[0] != p[0],
    ensures
        after_prefix(s, p) is None,
{
    if text::occurs_at(s, p, 0) {
        assert(s.subrange(0, p.len() as int)[0] == s[0]);
    }
}

/// The options are taken in order: as long as each can be read, one more option changes
/// the outcome of those before it by what it says alone, and the first that cannot be
/// read is the answer, whatever follows.
pub proof fn law_game_options_are_taken_in_order(
    args: Seq<Seq<char>>,
    i: int,
    acc: GameOverrides,
    more: Seq<char>,
)
    requires
        0 <= i <= args.len(),
    ensures
        game_options(args, i, acc) matches Ok(so_far) ==> game_options(args.push(more), i, acc)
            == game_option(more, so_far),
        game_options(args, i, acc) is Err ==> game_options(args.push(more), i, acc)
            == game_options(args, i, acc),
    decreases args.len() - i,
{
    let all = args.push(more);
    if i < args.len() {
        assert(all[i] == args[i]);
        match game_option(args[i], acc) {
            Ok(next) => law_game_options_are_taken_in_order(args, i + 1, next, more),
            Err(_) => {},
        }
    } else {
        assert(all[i] == more);
        match game_option(more, acc) {
            Ok(next) => {
                assert(game_options(all, i + 1, next) == Ok::<GameOverrides, Seq<char>>(next));
            },
            Err(_) => {},
        }
    }
}

/// A number of seconds read as a signed 64-bit number.
pub open spec fn signed(secs: u64) -> int {
    if secs < 0x8000_0000_0000_0000 {
        secs as int
    } else {
        secs - 0x1_0000_0000_0000_0000
    }
}

/// The second of the day at which the join window opens.
pub open spec fn opening(game_secs: int, reminder: u64) -> int {
    (game_secs - signed(reminder)) % 86400
}

/// The second of the day at which the join window opens.
pub fn opening_second(game_secs: u32, reminder: u64) -> (r: u32)
    requires
        game_secs < 86400,
    ensures
        r == opening(game_secs as int, reminder),
        r < 86400,
        reminder <= game_secs ==> r + reminder == game_secs,
        game_secs < reminder <= 86400 ==> r + reminder == game_secs + 86400 || (r == 0 && reminder
            == 86400 && game_secs == 0),
{
    let s: i128 = if reminder < 0x8000_0000_0000_0000 {
        reminder as i128
    } else {
        reminder as i128 - 0x1_0000_0000_0000_0000
    };
    let d: i128 = game_secs as i128 - s;
    assert(d == game_secs - signed(reminder));
    // 86400 goes into this bound, which makes the dividend positive.
    let bound: i128 = 86400 * 0x1_0000_0000_0000_0000;
    let up: u128 = (d + bound) as u128;
    assert((d + bound) % 86400 == d % 86400) by {
        vstd::arithmetic::div_mod::lemma_mod_multiples_vanish(
            0x1_0000_0000_0000_0000,
            d as int,
            86400,
        );
    }
    (up % 86400) as u32
}

/// When a one-time game takes place.
#[derive(Clone, Copy, Debug, PartialEq, Eq, Structural)]
pub struct GamePlan {
    /// Tomorrow rather than today.
    pub tomorrow: bool,
    /// The override of the reminder that is recorded.
    pub reminder: Option<u64>,
    /// Whether the join window is shorter than was asked for.
    pub trimmed: bool,
}

/// The plan for a game at `game_secs`, made at `now`. A game that is still to
/// come takes place today; where its join window should already be open, the
/// window is cut so that it opens in a minute. Otherwise it takes place tomorrow.
pub open spec fn plan_of(game_secs: int, now: int, reminder: u64, over: Option<u64>) -> GamePlan {
    if now >= game_secs {
        GamePlan { tomorrow: true, reminder: over, trimmed: false }
    } else if now >= opening(game_secs, reminder) {
        let left = if game_secs - now < 60 {
            60
        } else {
            game_secs - now
        };
        let cut = (left - 60) as u64;
        GamePlan { tomorrow: false, reminder: Some(cut), trimmed: cut < reminder }
    } else {
        GamePlan { tomorrow: false, reminder: over, trimmed: false }
    }
}

fn make_plan(game_secs: u32, now: u32, reminder: u64, over: Option<u64>) -> (r: GamePlan)
    requires
        game_secs < 86400,
        now < 86400,
    ensures
        r == plan_of(game_secs as int, now as int, reminder, over),
        r.tomorrow == (now >= game_secs),
        now >= game_secs ==> r.reminder == over && !r.trimmed,
        now < game_secs && reminder <= game_secs && now + reminder < game_secs ==> r.reminder
            == over && !r.trimmed,
        now < game_secs && reminder <= game_secs && now + reminder >= game_secs && now + 60
            >= game_secs ==> r.reminder == Some(0u64) && r.trimmed == (reminder > 0),
        now < game_secs && reminder <= game_secs && now + reminder >= game_secs && now + 60
            < game_secs ==> r.reminder == Some((game_secs - now - 60) as u64) && r.trimmed,
{
    if now >= game_secs {
        GamePlan { tomorrow: true, reminder: over, trimmed: false }
    } else if now >= opening_second(game_secs, reminder) {
        let left: u32 = if game_secs - now < 60 {
            60
        } else {
            game_secs - now
        };
        let cut: u64 = (left - 60) as u64;
        GamePlan { tomorrow: false, reminder: Some(cut), trimmed: cut < reminder }
    } else {
        GamePlan { tomorrow: false, reminder: over, trimmed: false }
    }
}

/// The reminder of a plan.
pub open spec fn planned_reminder(plan: GamePlan, default_reminder: u64) -> u64 {
    match plan.reminder {
        Some(s) => s,
        None => default_reminder,
    }
}

/// A game that is accepted starts after the moment at which it was planned, and
/// its join window neither opens before that moment nor after the game starts.
pub proof fn law_planned_games_lie_ahead(
    game_secs: int,
    now: int,
    over: Option<u64>,
    default_reminder: u64,
)
    requires
        0 <= game_secs < 86400,
        0 <= now < 86400,
        opening(
            game_secs,
            match over {
                Some(s) => s,
                None => default_reminder,
            },
        ) <= game_secs,
    ensures
        ({
            let asked = match over {
                Some(s) => s,
                None => default_reminder,
            };
            let plan = plan_of(game_secs, now, asked, over);
            let opens = opening(game_secs, planned_reminder(plan, default_reminder));
            &&& plan.tomorrow || game_secs > now
            &&& plan.tomorrow || opens > now
            &&& opens <= game_secs
            &&& plan.tomorrow ==> game_secs <= now
        }),
{
    let asked = match over {
        Some(s) => s,
        None => default_reminder,
    };
    let plan = plan_of(game_secs, now, asked, over);
    if now < game_secs && now >= opening(game_secs, asked) {
        let cut = plan.reminder->0;
        assert(signed(cut) == cut);
        assert(0 <= game_secs - cut < 86400);
        assert((game_secs - cut) % 86400 == game_secs - cut);
    }
}

/// A join window that should already be open is cut so that it opens in a minute, or
/// left out where less than a minute is left; one that lies ahead is kept as asked.
pub proof fn law_join_window_opens_in_a_minute(game_secs: int, now: int, reminder: u64, over: Option<u64>)
    requires
        0 <= game_secs < 86400,
        0 <= now < 86400,
        reminder <= game_secs,
    ensures
        ({
            let plan = plan_of(game_secs, now, reminder, over);
            &&& plan.tomorrow <==> game_secs <= now
            &&& game_secs <= now || now < game_secs - reminder ==> plan.reminder == over
                && !plan.trimmed
            &&& game_secs - reminder <= now && now + 60 <= game_secs ==> plan.reminder is Some
                && game_secs - plan.reminder->0 == now + 60 && plan.trimmed == (plan.reminder->0
                < reminder)
            &&& game_secs - reminder <= now < game_secs < now + 60 ==> plan.reminder == Some(0u64)
                && plan.trimmed == (reminder > 0)
        }),
{
    assert(signed(reminder) == reminder);
    assert((game_secs - reminder) % 86400 == game_secs - reminder);
}

/// Why the reminder of a game is refused: its join window would open after the
/// game.
pub open spec fn late_window_text(reminder: u64, h: nat, m: nat, game_secs: int) -> Seq<char> {
    let opens = opening(game_secs, reminder);
    let thousandth = reminder as int / 1000;
    "❌ reminder="@ + text::decimal(reminder as nat) + "s (~"@ + text::decimal(
        (reminder as int / 3600) as nat,
    ) + "h "@ + text::decimal(((reminder as int % 3600) / 60) as nat)
        + "m) is longer than the time from midnight to "@ + clock::hour_minute(h, m)
        + " — the join window would open at "@ + clock::hour_minute(
        (opens / 3600) as nat,
        ((opens % 3600) / 60) as nat,
    ) + ", after the game itself."@ + (if thousandth >= 1 && thousandth <= game_secs {
        " (Did you mean reminder="@ + text::decimal(thousandth as nat) + "?)"@
    } else {
        ""@
    })
}

fn late_window_message(reminder: u64, h: u32, m: u32, game_secs: u32) -> (out: String)
    requires
        game_secs < 86400,
    ensures
        out@ == late_window_text(reminder, h as nat, m as nat, game_secs as int),
        text::occurs_at(
            out@,
            "❌ reminder="@ + text::decimal(reminder as nat) + "s (~"@ + text::decimal(
                (reminder as int / 3600) as nat,
            ) + "h "@ + text::decimal((reminder as int % 3600 / 60) as nat)
                + "m) is longer than the time from midnight to "@ + clock::hour_minute(
                h as nat,
                m as nat,
            ),
            0,
        ),
        1000 <= reminder && reminder as int / 1000 <= game_secs ==> text::contains_text(
            out@,
            " (Did you mean reminder="@ + text::decimal((reminder as int / 1000) as nat) + "?)"@,
        ),
{
    let opens: u32 = opening_second(game_secs, reminder);
    let mut out = text::owned("❌ reminder=");
    text::push_decimal(&mut out, reminder as u128);
    out.append("s (~");
    text::push_decimal(&mut out, (reminder / 3600) as u128);
    out.append("h ");
    text::push_decimal(&mut out, ((reminder % 3600) / 60) as u128);
    out.append("m) is longer than the time from midnight to ");
    clock::push_hour_minute(&mut out, h, m);
    let ghost top = out@;
    out.append(" — the join window would open at ");
    clock::push_hour_minute(&mut out, opens / 3600, (opens % 3600) / 60);
    out.append(", after the game itself.");
    let thousandth: u64 = reminder / 1000;
    let ghost head = out@;
    if thousandth >= 1 && thousandth <= game_secs as u64 {
        out.append(" (Did you mean reminder=");
        text::push_decimal(&mut out, thousandth as u128);
        out.append("?)");
        assert(out@ =~= head + (" (Did you mean reminder="@ + text::decimal(thousandth as nat)
            + "?)"@));
        proof {
            let part = " (Did you mean reminder="@ + text::decimal(thousandth as nat) + "?)"@;
            assert(out@.subrange(head.len() as int, out@.len() as int) =~= part);
            assert(text::occurs_at(out@, part, head.len() as int));
        }
    } else {
        out.append("");
    }
    assert(out@.subrange(0, top.len() as int) =~= top);
    out
}

/// A number of guesses in words.
pub open spec fn guesses_text(n: nat) -> Seq<char> {
    text::decimal(n) + " guess"@ + (if n == 1 {
        ""@
    } else {
        "es"@
    })
}

pub(crate) fn push_guesses(out: &mut String, n: u32)
    ensures
        final(out)@ == old(out)@ + guesses_text(n as nat),
        n == 1 ==> final(out)@ == old(out)@ + (text::decimal(1) + " guess"@ + ""@),
        n != 1 ==> final(out)@ == old(out)@ + (text::decimal(n as nat) + " guess"@ + "es"@),
{
    text::push_decimal(out, n as u128);
    out.append(" guess");
    out.append(
        if n == 1 {
            ""
        } else {
            "es"
        },
    );
    assert(out@ =~= old(out)@ + guesses_text(n as nat));
}

/// The overrides of a game in words: timeout and guesses.
pub open spec fn extras_text(timeout: Option<u64>, guesses: Option<u32>) -> Seq<char> {
    (match timeout {
        Some(t) => ", timeout "@ + clock::duration_text(t as nat),
        None => ""@,
    }) + (match guesses {
        Some(g) => ", "@ + guesses_text(g as nat),
        None => ""@,
    })
}

fn push_extras(out: &mut String, timeout: Option<u64>, guesses: Option<u32>)
    ensures
        final(out)@ == old(out)@ + extras_text(timeout, guesses),
        timeout matches Some(t) ==> text::contains_text(
            final(out)@,
            ", timeout "@ + clock::duration_text(t as nat),
        ),
        guesses matches Some(g) ==> text::contains_text(
            final(out)@,
            ", "@ + (text::decimal(g as nat) + " guess"@ + (if g == 1 {
                ""@
            } else {
                "es"@
            })),
        ),
{
    match timeout {
        Some(t) => {
            out.append(", timeout ");
            out.append(clock::format_duration(t).as_str());
        },
        None => {
            out.append("");
        },
    }
    match guesses {
        Some(g) => {
            out.append(", ");
            push_guesses(out, g);
        },
        None => {
            out.append("");
        },
    }
    assert(out@ =~= old(out)@ + extras_text(timeout, guesses));
    proof {
        let start = old(out)@.len() as int;
        if let Some(t) = timeout {
            let part = ", timeout "@ + clock::duration_text(t as nat);
            assert(out@.subrange(start, start + part.len()) =~= part);
            assert(text::occurs_at(out@, part, start));
        }
        if let Some(g) = guesses {
            let part = ", "@ + guesses_text(g as nat);
            assert(out@.subrange(out@.len() - part.len(), out@.len() as int) =~= part);
            assert(text::occurs_at(out@, part, out@.len() - part.len()));
        }
    }
}

/// The confirmation of a planned game.
pub open spec fn planned_text(
    plan: GamePlan,
    game_time: Seq<char>,
    game_secs: int,
    asked: u64,
    effective: u64,
    over: GameOverrides,
) -> Seq<char> {
    let opens = opening(game_secs, effective);
    "✅ GeoGuessr: "@ + (if plan.tomorrow {
        "tomorrow"@
    } else {
        "today"@
    }) + " at "@ + game_time + (if effective > 0 {
        " (join ~"@ + clock::hour_minute((opens / 3600) as nat, ((opens % 3600) / 60) as nat) + ")"@
    } else {
        ""@
    }) + (if plan.trimmed {
        " ⚠️ join window trimmed to "@ + clock::duration_text(effective as nat) + " (was "@
            + clock::duration_text(asked as nat) + ")"@
    } else {
        ""@
    }) + extras_text(over.answer_timeout_secs, over.guesses_per_round) + "\nCancel: !cancelgeo "@
        + game_time
}

#[verifier::rlimit(60)]
#[verifier::spinoff_prover]
fn planned_message(
    plan: GamePlan,
    game_time: &str,
    game_secs: u32,
    asked: u64,
    effective: u64,
    over: GameOverrides,
) -> (out: String)
    requires
        game_secs < 86400,
    ensures
        out@ == planned_text(plan, game_time@, game_secs as int, asked, effective, over),
        text::occurs_at(
            out@,
            "✅ GeoGuessr: "@ + (if plan.tomorrow {
                "tomorrow"@
            } else {
                "today"@
            }) + " at "@ + game_time@,
            0,
        ),
        ({
            let end = "\nCancel: !cancelgeo "@ + game_time@;
            text::occurs_at(out@, end, out@.len() - end.len())
        }),
        plan.trimmed ==> text::contains_text(
            out@,
            " ⚠️ join window trimmed to "@ + clock::duration_text(effective as nat) + " (was "@
                + clock::duration_text(asked as nat) + ")"@,
        ),
        0 < effective <= game_secs ==> text::contains_text(
            out@,
            " (join ~"@ + clock::hour_minute(
                ((game_secs - effective) / 3600) as nat,
                ((game_secs - effective) % 3600 / 60) as nat,
            ) + ")"@,
        ),
{
    let opens: u32 = opening_second(game_secs, effective);
    let mut out = text::owned("✅ GeoGuessr: ");
    out.append(
        if plan.tomorrow {
            "tomorrow"
        } else {
            "today"
        },
    );
    out.append(" at ");
    out.append(game_time);
    let ghost a = out@;
    if effective > 0 {
        out.append(" (join ~");
        clock::push_hour_minute(&mut out, opens / 3600, (opens % 3600) / 60);
        out.append(")");
        assert(out@ =~= a + (" (join ~"@ + clock::hour_minute(
            (opens / 3600) as nat,
            ((opens % 3600) / 60) as nat,
        ) + ")"@));
    } else {
        out.append("");
    }
    let ghost b = out@;
    if plan.trimmed {
        out.append(" ⚠️ join window trimmed to ");
        out.append(clock::format_duration(effective).as_str());
        out.append(" (was ");
        out.append(clock::format_duration(asked).as_str());
        out.append(")");
        assert(out@ =~= b + (" ⚠️ join window trimmed to "@ + clock::duration_text(
            effective as nat,
        ) + " (was "@ + clock::duration_text(asked as nat) + ")"@));
    } else {
        out.append("");
    }
    let ghost c = out@;
    push_extras(&mut out, over.answer_timeout_secs, over.guesses_per_round);
    out.append("\nCancel: !cancelgeo ");
    out.append(game_time);
    proof {
        let whole = out@;
        let end = "\nCancel: !cancelgeo "@ + game_time@;
        assert(whole.subrange(0, a.len() as int) =~= a);
        assert(whole.subrange(whole.len() - end.len(), whole.len() as int) =~= end);
        if plan.trimmed {
            let part = " ⚠️ join window trimmed to "@ + clock::duration_text(effective as nat)
                + " (was "@ + clock::duration_text(asked as nat) + ")"@;
            assert(c =~= b + part);
            assert(whole.subrange(b.len() as int, c.len() as int) =~= part);
            assert(text::occurs_at(whole, part, b.len() as int));
        }
        if 0 < effective <= game_secs {
            let part = " (join ~"@ + clock::hour_minute(
                ((game_secs - effective) / 3600) as nat,
                ((game_secs - effective) % 3600 / 60) as nat,
            ) + ")"@;
            assert(b =~= a + part);
            assert(whole.subrange(a.len() as int, b.len() as int) =~= part);
            assert(text::occurs_at(whole, part, a.len() as int));
        }
    }
    out
}

/// What the entries hold.
pub open spec fn once_views(s: Seq<ScheduledOnce>) -> Seq<ScheduledOnceView> {
    s.map_values(|e: ScheduledOnce| e@)
}

/// One line of the list of one-time games.
pub open spec fn pending_line(e: ScheduledOnceView) -> Seq<char> {
    "  • "@ + e.game_time + " on "@ + clock::date_text(e.date.day) + (match e.reminder_before_secs {
        Some(s) => ", reminder "@ + clock::duration_text(s as nat),
        None => ""@,
    }) + extras_text(e.answer_timeout_secs, e.guesses_per_round)
}

/// The list of one-time games.
pub open spec fn pending_text(entries: Seq<ScheduledOnceView>) -> Seq<char> {
    if entries.len() == 0 {
        "No one-time games scheduled.\nUsage: !schedulegeo HH:MM [reminder=<secs>] [timeout=<secs>]"@
    } else {
        text::joined(
            seq!["📅 Pending one-time games:"@] + entries.map_values(
                |e: ScheduledOnceView| pending_line(e),
            ),
            "\n"@,
        )
    }
}

fn pending_message(entries: &Vec<ScheduledOnce>) -> (out: String)
    ensures
        out@ == pending_text(once_views(entries@)),
        entries@.len() > 0 ==> exists|lines: Seq<Seq<char>>|
            out@ == #[trigger] text::joined(lines, "\n"@) && lines.len() == entries@.len() + 1
                && lines[0] == "📅 Pending one-time games:"@ && forall|i: int|
                1 <= i < lines.len() ==> (#[trigger] lines[i]) == "  • "@ + entries@[i
                    - 1].game_time@ + " on "@ + clock::date_text(entries@[i - 1].date.day) + (
                match entries@[i - 1].reminder_before_secs {
                    Some(s) => ", reminder "@ + clock::duration_text(s as nat),
                    None => ""@,
                }) + extras_text(
                    entries@[i - 1].answer_timeout_secs,
                    entries@[i - 1].guesses_per_round,
                ),
{
    if entries.len() == 0 {
        return text::owned(
            "No one-time games scheduled.\nUsage: !schedulegeo HH:MM [reminder=<secs>] [timeout=<secs>]",
        );
    }
    let ghost all = once_views(entries@).map_values(|e: ScheduledOnceView| pending_line(e));
    let mut lines: Vec<String> = Vec::new();
    lines.push(text::owned("📅 Pending one-time games:"));
    let ghost start = text::views(lines@);
    assert(start =~= seq!["📅 Pending one-time games:"@]);
    let mut i: usize = 0;
    assert(start =~= start + all.take(0));
    while i < entries.len()
        invariant
            i <= entries@.len(),
            all == once_views(entries@).map_values(|e: ScheduledOnceView| pending_line(e)),
            text::views(lines@) == start + all.take(i as int),
        decreases entries@.len() - i,
    {
        let ghost before = text::views(lines@);
        let e = &entries[i];
        let mut line = text::owned("  • ");
        line.append(e.game_time.as_str());
        line.append(" on ");
        line.append(clock::date_name(e.date).as_str());
        let ghost head = line@;
        match e.reminder_before_secs {
            Some(s) => {
                line.append(", reminder ");
                line.append(clock::format_duration(s).as_str());
                assert(line@ =~= head + (", reminder "@ + clock::duration_text(s as nat)));
            },
            None => {
                line.append("");
            },
        }
        push_extras(&mut line, e.answer_timeout_secs, e.guesses_per_round);
        assert(line@ == all[i as int]);
        lines.push(line);
        assert(text::views(lines@) =~= before.push(all[i as int]));
        assert(start + all.take(i as int + 1) =~= before.push(all[i as int]));
        i = i + 1;
    }
    assert(all.take(all.len() as int) =~= all);
    text::join(&lines, "\n")
}

/// What comes of a request for a one-time game.
pub enum ScheduleOutcome {
    /// Only an answer.
    Answer(Seq<char>),
    /// A game is added, and this is the answer.
    Added(ScheduledOnceView, Seq<char>),
}

/// The date of a plan.
pub open spec fn planned_date(plan: GamePlan, today: DayNumber) -> DayNumber {
    if plan.tomorrow {
        DayNumber { day: (today.day + 1) as i32 }
    } else {
        today
    }
}

/// Whether a game at this time and date is already there.
pub open spec fn already_there(
    entries: Seq<ScheduledOnceView>,
    game_time: Seq<char>,
    date: DayNumber,
) -> bool {
    exists|i: int|
        0 <= i < entries.len() && (#[trigger] entries[i]).game_time == game_time && entries[i].date
            == date
}

/// What comes of a request for a one-time game: the words of the request, the
/// games already there, the configured reminder and the local time.
pub open spec fn schedule_outcome(
    words: Seq<Seq<char>>,
    entries: Seq<ScheduledOnceView>,
    default_reminder: u64,
    now: LocalClock,
) -> ScheduleOutcome {
    if words.len() <= 1 {
        ScheduleOutcome::Answer(pending_text(entries))
    } else {
        match config::clock_time(words[1]) {
            None => ScheduleOutcome::Answer(
                quoting("❌ Invalid time \""@, words[1], "\" · use HH:MM (e.g. 15:00)"@),
            ),
            Some((h, m)) => match game_options(words, 2, none_given()) {
                Err(e) => ScheduleOutcome::Answer(e),
                Ok(over) => {
                    let game_secs = (h * 3600 + m * 60) as int;
                    let asked = match over.reminder_before_secs {
                        Some(s) => s,
                        None => default_reminder,
                    };
                    if opening(game_secs, asked) > game_secs {
                        ScheduleOutcome::Answer(late_window_text(asked, h, m, game_secs))
                    } else {
                        let plan = plan_of(
                            game_secs,
                            now.secs as int,
                            asked,
                            over.reminder_before_secs,
                        );
                        let time = clock::hour_minute(h, m);
                        let date = planned_date(plan, now.day);
                        if already_there(entries, time, date) {
                            ScheduleOutcome::Answer(
                                "⚠️ A game at "@ + time + " on "@ + clock::date_text(date.day)
                                    + " is already scheduled."@,
                            )
                        } else {
                            ScheduleOutcome::Added(
                                ScheduledOnceView {
                                    game_time: time,
                                    date,
                                    reminder_before_secs: plan.reminder,
                                    answer_timeout_secs: over.answer_timeout_secs,
                                    guesses_per_round: over.guesses_per_round,
                                },
                                planned_text(
                                    plan,
                                    time,
                                    game_secs,
                                    asked,
                                    planned_reminder(plan, default_reminder),
                                    over,
                                ),
                            )
                        }
                    }
                },
            },
        }
    }
}

/// Everything but the list of one-time games stays as it is.
pub open spec fn only_once_changed(a: State, b: State) -> bool {
    &&& a.cached_guesses == b.cached_guesses
    &&& a.created_at == b.created_at
    &&& a.last_game_dates == b.last_game_dates
    &&& a.pending_join == b.pending_join
    &&& a.user_langs == b.user_langs
    &&& a.schedule_overrides == b.schedule_overrides
    &&& a.active_round == b.active_round
}

fn has_game(entries: &Vec<ScheduledOnce>, game_time: &str, date: DayNumber) -> (r: bool)
    ensures
        r == already_there(once_views(entries@), game_time@, date),
        r <==> exists|i: int|
            0 <= i < entries@.len() && (#[trigger] entries@[i]).game_time@ == game_time@
                && entries@[i].date == date,
{
    let mut i: usize = 0;
    while i < entries.len()
        invariant
            i <= entries@.len(),
            forall|k: int|
                0 <= k < i ==> !((#[trigger] once_views(entries@)[k]).game_time == game_time@
                    && once_views(entries@)[k].date == date),
        decreases entries@.len() - i,
    {
        assert(once_views(entries@)[i as int] == entries@[i as int]@);
        if text::same_text(entries[i].game_time.as_str(), game_time) && entries[i].date == date {
            return true;
        }
        i = i + 1;
    }
    assert forall|k: int| 0 <= k < entries@.len() implies !((#[trigger] entries@[k]).game_time@
        == game_time@ && entries@[k].date == date) by {
        assert(once_views(entries@)[k] == entries@[k]@);
    }
    false
}

/// Whether the second list is the first, or the first with one game at its end.
pub open spec fn adds_at_most_one(
    before: Seq<ScheduledOnceView>,
    after: Seq<ScheduledOnceView>,
) -> bool {
    ||| after == before
    ||| after.len() == before.len() + 1 && after.drop_last() == before
}

/// Whether `e` is the game that was asked for: at the hour and minute of the request,
/// today where that time is still to come and tomorrow where it is not, with the
/// timeout and the number of guesses of the request, and not there before.
pub open spec fn is_planned(
    words: Seq<Seq<char>>,
    entries: Seq<ScheduledOnceView>,
    default_reminder: u64,
    now: LocalClock,
    e: ScheduledOnceView,
) -> bool {
    &&& words.len() >= 2
    &&& config::clock_time(words[1]) matches Some((h, m)) && e.game_time == clock::hour_minute(h, m)
        && e.date.day == if now.secs < h * 3600 + m * 60 {
        now.day.day as int
    } else {
        now.day.day + 1
    }
    &&& game_options(words, 2, none_given()) matches Ok(over) && e.answer_timeout_secs
        == over.answer_timeout_secs && e.guesses_per_round == over.guesses_per_round
    &&& forall|i: int|
        0 <= i < entries.len() ==> (#[trigger] entries[i]).game_time != e.game_time
            || entries[i].date != e.date
}

/// Whether no game comes of the request: it names no time or one that cannot be read,
/// an option is wrong, the join window would open after the game, or the game is
/// already there.
pub open spec fn cannot_be_planned(
    words: Seq<Seq<char>>,
    entries: Seq<ScheduledOnceView>,
    default_reminder: u64,
    now: LocalClock,
) -> bool {
    ||| words.len() < 2
    ||| config::clock_time(words[1]) is None
    ||| game_options(words, 2, none_given()) is Err
    ||| ({
        let (h, m) = config::clock_time(words[1])->0;
        let over = game_options(words, 2, none_given())->Ok_0;
        let game_secs = h * 3600 + m * 60;
        let reminder = if over.reminder_before_secs is Some {
            over.reminder_before_secs->0
        } else {
            default_reminder
        };
        ||| reminder > game_secs
        ||| exists|i: int|
            0 <= i < entries.len() && (#[trigger] entries[i]).game_time == clock::hour_minute(h, m)
                && entries[i].date.day == if now.secs < game_secs {
                now.day.day as int
            } else {
                now.day.day + 1
            }
    })
}

/// Handles a request for a one-time game and returns the answer.
pub fn schedule_game(
    state: &mut State,
    schedule: &ScheduleConfig,
    body: &str,
    now: LocalClock,
) -> (out: String)
    requires
        now.secs < 86400,
        now.day.day < i32::MAX,
    ensures
        only_once_changed(*old(state), *final(state)),
        match schedule_outcome(
            text::words(body@),
            once_views(old(state).scheduled_once@),
            schedule.reminder_before_secs,
            now,
        ) {
            ScheduleOutcome::Answer(t) => out@ == t && once_views(final(state).scheduled_once@)
                == once_views(old(state).scheduled_once@),
            ScheduleOutcome::Added(e, t) => out@ == t && once_views(final(state).scheduled_once@)
                == once_views(old(state).scheduled_once@).push(e),
        },
        adds_at_most_one(
            once_views(old(state).scheduled_once@),
            once_views(final(state).scheduled_once@),
        ),
        final(state).scheduled_once@.len() > old(state).scheduled_once@.len() ==> is_planned(
            text::words(body@),
            once_views(old(state).scheduled_once@),
            schedule.reminder_before_secs,
            now,
            final(state).scheduled_once@.last()@,
        ),
        final(state).scheduled_once@.len() == old(state).scheduled_once@.len() ==> cannot_be_planned(
            text::words(body@),
            once_views(old(state).scheduled_once@),
            schedule.reminder_before_secs,
            now,
        ),
{
    let words = text::split_words(body);
    let ghost ws = text::words(body@);
    let ghost before = once_views(state.scheduled_once@);
    assert(ws.len() == words@.len());
    if words.len() <= 1 {
        return pending_message(&state.scheduled_once);
    }
    assert(ws[1] == words@[1]@);
    let (h, m) = match ScheduleConfig::parse_game_time(words[1].as_str()) {
        Some(t) => t,
        None => {
            return quoted(
                "❌ Invalid time \"",
                words[1].as_str(),
                "\" · use HH:MM (e.g. 15:00)",
            );
        },
    };
    let over = match read_game_options(&words) {
        Ok(o) => o,
        Err(e) => {
            return e;
        },
    };
    let game_secs: u32 = h * 3600 + m * 60;
    let asked: u64 = match over.reminder_before_secs {
        Some(s) => s,
        None => schedule.reminder_before_secs,
    };
    if opening_second(game_secs, asked) > game_secs {
        return late_window_message(asked, h, m, game_secs);
    }
    let plan = make_plan(game_secs, now.secs, asked, over.reminder_before_secs);
    let effective: u64 = match plan.reminder {
        Some(s) => s,
        None => schedule.reminder_before_secs,
    };
    let game_time = clock::hour_minute_text(h, m);
    let date: DayNumber = if plan.tomorrow {
        DayNumber { day: now.day.day + 1 }
    } else {
        now.day
    };
    if has_game(&state.scheduled_once, game_time.as_str(), date) {
        let mut out = text::owned("⚠️ A game at ");
        out.append(game_time.as_str());
        out.append(" on ");
        out.append(clock::date_name(date).as_str());
        out.append(" is already scheduled.");
        return out;
    }
    let out = planned_message(plan, game_time.as_str(), game_secs, asked, effective, over);
    let entry = ScheduledOnce {
        game_time,
        date,
        reminder_before_secs: plan.reminder,
        answer_timeout_secs: over.answer_timeout_secs,
        guesses_per_round: over.guesses_per_round,
    };
    let ghost ev = entry@;
    state.scheduled_once.push(entry);
    assert(once_views(state.scheduled_once@) =~= before.push(ev));
    assert(before.push(ev).drop_last() =~= before);
    assert forall|i: int| 0 <= i < before.len() implies (#[trigger] before[i]).game_time
        != ev.game_time || before[i].date != ev.date by {
        assert(!already_there(before, ev.game_time, ev.date));
    }
    out
}

// ── Overrides of the recurring schedule ──────────────────────────────────────

/// The overrides that one option gives.
pub open spec fn override_option(arg: Seq<char>, acc: ScheduleOverrides) -> Result<
    ScheduleOverrides,
    Seq<char>,
> {
    if let Some(v) = after_prefix(arg, "guesses="@) {
        match count_option("guesses"@, v, u32::MAX as u64) {
            Ok(n) => Ok(ScheduleOverrides { guesses_per_round: Some(n as u32), ..acc }),
            Err(e) => Err(e),
        }
    } else if let Some(v) = after_prefix(arg, "photos="@) {
        match count_option("photos"@, v, usize::MAX as u64) {
            Ok(n) => Ok(ScheduleOverrides { photos_per_location: Some(n as usize), ..acc }),
            Err(e) => Err(e),
        }
    } else if let Some(v) = after_prefix(arg, "timeout="@) {
        match seconds_option("timeout"@, v) {
            Ok(n) => Ok(ScheduleOverrides { answer_timeout_secs: Some(n), ..acc }),
            Err(e) => Err(e),
        }
    } else {
        Err(
            quoting(
                "❌ Unknown argument \""@,
                arg,
                "\"\nUsage: !setschedule [guesses=N] [photos=N] [timeout=N] | reset"@,
            ),
        )
    }
}

/// The overrides that the options from position `i` on give.
pub open spec fn override_options(args: Seq<Seq<char>>, i: int, acc: ScheduleOverrides) -> Result<
    ScheduleOverrides,
    Seq<char>,
>
    decreases args.len() - i,
{
    if i >= args.len() {
        Ok(acc)
    } else {
        match override_option(args[i], acc) {
            Ok(next) => override_options(args, i + 1, next),
            Err(e) => Err(e),
        }
    }
}

/// No overrides of the recurring schedule.
pub open spec fn no_schedule_overrides() -> ScheduleOverrides {
    ScheduleOverrides {
        guesses_per_round: None,
        answer_timeout_secs: None,
        photos_per_location: None,
    }
}

fn read_override_option(arg: &str, acc: ScheduleOverrides) -> (r: Result<ScheduleOverrides, String>)
    ensures
        agrees(r, override_option(arg@, acc)),
        !text::occurs_at(arg@, "guesses="@, 0) && !text::occurs_at(arg@, "photos="@, 0) && !text::occurs_at(arg@, "timeout="@, 0) ==> (r matches Err(e) && e@ == "❌ Unknown argument \""@ + arg@ + "\"\nUsage: !setschedule [guesses=N] [photos=N] [timeout=N] | reset"@),
{
    if let Some(v) = strip_prefix(arg, "guesses=") {
        match read_count("guesses", v.as_str(), u32::MAX as u64) {
            Ok(n) => Ok(
                ScheduleOverrides {
                    guesses_per_round: Some(n as u32),
                    answer_timeout_secs: acc.answer_timeout_secs,
                    photos_per_location: acc.photos_per_location,
                },
            ),
            Err(e) => Err(e),
        }
    } else if let Some(v) = strip_prefix(arg, "photos=") {
        match read_count("photos", v.as_str(), usize::MAX as u64) {
            Ok(n) => Ok(
                ScheduleOverrides {
                    guesses_per_round: acc.guesses_per_round,
                    answer_timeout_secs: acc.answer_timeout_secs,
                    photos_per_location: Some(n as usize),
                },
            ),
            Err(e) => Err(e),
        }
    } else if let Some(v) = strip_prefix(arg, "timeout=") {
        match read_seconds("timeout", v.as_str()) {
            Ok(n) => Ok(
                ScheduleOverrides {
                    guesses_per_round: acc.guesses_per_round,
                    answer_timeout_secs: Some(n),
                    photos_per_location: acc.photos_per_location,
                },
            ),
            Err(e) => Err(e),
        }
    } else {
        Err(
            quoted(
                "❌ Unknown argument \"",
                arg,
                "\"\nUsage: !setschedule [guesses=N] [photos=N] [timeout=N] | reset",
            ),
        )
    }
}

fn read_override_options(args: &Vec<String>) -> (r: Result<ScheduleOverrides, String>)
    requires
        args@.len() >= 1,
    ensures
        agrees(r, override_options(text::views(args@), 1, no_schedule_overrides())),
{
    let mut acc = ScheduleOverrides::default();
    assert(acc == no_schedule_overrides());
    let ghost vs = text::views(args@);
    let mut i: usize = 1;
    while i < args.len()
        invariant
            1 <= i <= args@.len(),
            vs == text::views(args@),
            override_options(vs, i as int, acc) == override_options(vs, 1, no_schedule_overrides()),
        decreases args@.len() - i,
    {
        assert(vs[i as int] == args@[i as int]@);
        match read_override_option(args[i].as_str(), acc) {
            Ok(next) => {
                acc = next;
            },
            Err(e) => {
                return Err(e);
            },
        }
        i = i + 1;
    }
    Ok(acc)
}

/// Each option of the recurring schedule sets what it names to the number it gives, and
/// nothing else; nothing of what is counted may be 0, and a number that is too large is
/// refused.
pub proof fn law_schedule_options_set_what_they_name(n: nat, acc: ScheduleOverrides)
    ensures
        ({
            let r = override_option("guesses="@ + text::decimal(n), acc);
            &&& r is Ok <==> 1 <= n <= u32::MAX
            &&& r matches Ok(o) ==> o.guesses_per_round == Some(n as u32)
                && o.photos_per_location == acc.photos_per_location && o.answer_timeout_secs
                == acc.answer_timeout_secs
        }),
        ({
            let r = override_option("photos="@ + text::decimal(n), acc);
            &&& r is Ok <==> 1 <= n <= usize::MAX
            &&& r matches Ok(o) ==> o.photos_per_location == Some(n as usize)
                && o.guesses_per_round == acc.guesses_per_round && o.answer_timeout_secs
                == acc.answer_timeout_secs
        }),
        ({
            let r = override_option("timeout="@ + text::decimal(n), acc);
            &&& r is Ok <==> n <= u64::MAX
            &&& r matches Ok(o) ==> o.answer_timeout_secs == Some(n as u64)
                && o.guesses_per_round == acc.guesses_per_round && o.photos_per_location
                == acc.photos_per_location
        }),
{
    lemma_option_names(text::decimal(n));
    text::law_written_numbers_read_back(n, u64::MAX as nat);
    text::law_written_numbers_read_back(n, u32::MAX as nat);
    text::law_written_numbers_read_back(n, usize::MAX as nat);
}

/// The options are taken in order: as long as each can be read, one more option changes
/// the outcome of those before it by what it says alone, and the first that cannot be
/// read is the answer, whatever follows.
pub proof fn law_schedule_options_are_taken_in_order(
    args: Seq<Seq<char>>,
    i: int,
    acc: ScheduleOverrides,
    more: Seq<char>,
)
    requires
        0 <= i <= args.len(),
    ensures
        override_options(args, i, acc) matches Ok(so_far) ==> override_options(
            args.push(more),
            i,
            acc,
        ) == override_option(more, so_far),
        override_options(args, i, acc) is Err ==> override_options(args.push(more), i, acc)
            == override_options(args, i, acc),
    decreases args.len() - i,
{
    let all = args.push(more);
    if i < args.len() {
        assert(all[i] == args[i]);
        match override_option(args[i], acc) {
            Ok(next) => law_schedule_options_are_taken_in_order(args, i + 1, next, more),
            Err(_) => {},
        }
    } else {
        assert(all[i] == more);
        match override_option(more, acc) {
            Ok(next) => {
                assert(override_options(all, i + 1, next) == Ok::<ScheduleOverrides, Seq<char>>(
                    next,
                ));
            },
            Err(_) => {},
        }
    }
}

/// What is given replaces what was there, field by field; what is not given stays as it
/// was.
pub proof fn law_new_overrides_win(before: ScheduleOverrides, given: ScheduleOverrides)
    ensures
        given.guesses_per_round is Some ==> merged(before, given).guesses_per_round
            == given.guesses_per_round,
        given.guesses_per_round is None ==> merged(before, given).guesses_per_round
            == before.guesses_per_round,
        given.answer_timeout_secs is Some ==> merged(before, given).answer_timeout_secs
            == given.answer_timeout_secs,
        given.answer_timeout_secs is None ==> merged(before, given).answer_timeout_secs
            == before.answer_timeout_secs,
        given.photos_per_location is Some ==> merged(before, given).photos_per_location
            == given.photos_per_location,
        given.photos_per_location is None ==> merged(before, given).photos_per_location
            == before.photos_per_location,
{
}

/// The overrides in force after new ones were given: what was given, otherwise
/// what was there.
pub open spec fn merged(old_over: ScheduleOverrides, given: ScheduleOverrides) -> ScheduleOverrides {
    ScheduleOverrides {
        guesses_per_round: if given.guesses_per_round is Some {
            given.guesses_per_round
        } else {
            old_over.guesses_per_round
        },
        answer_timeout_secs: if given.answer_timeout_secs is Some {
            given.answer_timeout_secs
        } else {
            old_over.answer_timeout_secs
        },
        photos_per_location: if given.photos_per_location is Some {
            given.photos_per_location
        } else {
            old_over.photos_per_location
        },
    }
}

/// The overrides that were given, in words.
pub open spec fn given_parts(given: ScheduleOverrides) -> Seq<Seq<char>> {
    (match given.guesses_per_round {
        Some(n) => seq![guesses_text(n as nat)],
        None => Seq::empty(),
    }) + (match given.photos_per_location {
        Some(n) => seq![
            text::decimal(n as nat) + " photo"@ + (if n == 1 {
                ""@
            } else {
                "s"@
            }) + "/guess"@,
        ],
        None => Seq::empty(),
    }) + (match given.answer_timeout_secs {
        Some(n) => seq!["timeout "@ + clock::duration_text(n as nat)],
        None => Seq::empty(),
    })
}

fn given_message(given: ScheduleOverrides) -> (out: String)
    ensures
        out@ == "✅ Schedule updated: "@ + text::joined(given_parts(given), ", "@),
        exists|parts: Seq<Seq<char>>|
            out@ == "✅ Schedule updated: "@ + #[trigger] text::joined(parts, ", "@) && parts
                == (match given.guesses_per_round {
                Some(n) => seq![guesses_text(n as nat)],
                None => Seq::empty(),
            }) + (match given.photos_per_location {
                Some(n) => seq![
                    text::decimal(n as nat) + " photo"@ + (if n == 1 {
                        ""@
                    } else {
                        "s"@
                    }) + "/guess"@,
                ],
                None => Seq::empty(),
            }) + (match given.answer_timeout_secs {
                Some(n) => seq!["timeout "@ + clock::duration_text(n as nat)],
                None => Seq::empty(),
            }),
{
    let mut parts: Vec<String> = Vec::new();
    if let Some(n) = given.guesses_per_round {
        let mut p = String::new();
        push_guesses(&mut p, n);
        assert(p@ =~= guesses_text(n as nat));
        parts.push(p);
    }
    let ghost a = text::views(parts@);
    assert(a =~= (match given.guesses_per_round {
        Some(n) => seq![guesses_text(n as nat)],
        None => Seq::empty(),
    }));
    if let Some(n) = given.photos_per_location {
        let mut p = String::new();
        text::push_decimal(&mut p, n as u128);
        p.append(" photo");
        p.append(
            if n == 1 {
                ""
            } else {
                "s"
            },
        );
        p.append("/guess");
        assert(p@ =~= text::decimal(n as nat) + " photo"@ + (if n == 1 {
            ""@
        } else {
            "s"@
        }) + "/guess"@);
        parts.push(p);
    }
    let ghost b = text::views(parts@);
    assert(b =~= a + (match given.photos_per_location {
        Some(n) => seq![
            text::decimal(n as nat) + " photo"@ + (if n == 1 {
                ""@
            } else {
                "s"@
            }) + "/guess"@,
        ],
        None => Seq::empty(),
    }));
    if let Some(n) = given.answer_timeout_secs {
        let mut p = text::owned("timeout ");
        p.append(clock::format_duration(n).as_str());
        parts.push(p);
    }
    assert(text::views(parts@) =~= given_parts(given));
    let mut out = text::owned("✅ Schedule updated: ");
    out.append(text::join(&parts, ", ").as_str());
    out
}

/// The overrides in force, in words.
pub open spec fn overrides_text(over: ScheduleOverrides, schedule: ScheduleConfig) -> Seq<char> {
    "📅 Schedule overrides:\n· guesses: "@ + (match over.guesses_per_round {
        Some(n) => text::decimal(n as nat),
        None => text::decimal(schedule.guesses_per_round as nat) + " (config)"@,
    }) + "\n· photos/guess: "@ + (match over.photos_per_location {
        Some(n) => text::decimal(n as nat),
        None => text::decimal(schedule.photos_per_location as nat) + " (config)"@,
    }) + "\n· timeout: "@ + (match over.answer_timeout_secs {
        Some(s) => clock::duration_text(s as nat),
        None => clock::duration_text(schedule.answer_timeout_secs as nat) + " (config)"@,
    })
        + "\nChange: !setschedule [guesses=N] [photos=N] [timeout=N] | !setschedule reset"@
}

fn overrides_message(over: ScheduleOverrides, schedule: &ScheduleConfig) -> (out: String)
    ensures
        out@ == overrides_text(over, *schedule),
        out@ == "📅 Schedule overrides:\n· guesses: "@ + (if over.guesses_per_round is Some {
            text::decimal(over.guesses_per_round->0 as nat)
        } else {
            text::decimal(schedule.guesses_per_round as nat) + " (config)"@
        }) + "\n· photos/guess: "@ + (if over.photos_per_location is Some {
            text::decimal(over.photos_per_location->0 as nat)
        } else {
            text::decimal(schedule.photos_per_location as nat) + " (config)"@
        }) + "\n· timeout: "@ + (if over.answer_timeout_secs is Some {
            clock::duration_text(over.answer_timeout_secs->0 as nat)
        } else {
            clock::duration_text(schedule.answer_timeout_secs as nat) + " (config)"@
        }) + "\nChange: !setschedule [guesses=N] [photos=N] [timeout=N] | !setschedule reset"@,
{
    let mut out = text::owned("📅 Schedule overrides:\n· guesses: ");
    let ghost a = out@;
    match over.guesses_per_round {
        Some(n) => {
            text::push_decimal(&mut out, n as u128);
        },
        None => {
            text::push_decimal(&mut out, schedule.guesses_per_round as u128);
            out.append(" (config)");
            assert(out@ =~= a + (text::decimal(schedule.guesses_per_round as nat) + " (config)"@));
        },
    }
    out.append("\n· photos/guess: ");
    let ghost b = out@;
    match over.photos_per_location {
        Some(n) => {
            text::push_decimal(&mut out, n as u128);
        },
        None => {
            text::push_decimal(&mut out, schedule.photos_per_location as u128);
            out.append(" (config)");
            assert(out@ =~= b + (text::decimal(schedule.photos_per_location as nat)
                + " (config)"@));
        },
    }
    out.append("\n· timeout: ");
    let ghost c = out@;
    match over.answer_timeout_secs {
        Some(s) => {
            out.append(clock::format_duration(s).as_str());
        },
        None => {
            out.append(clock::format_duration(schedule.answer_timeout_secs).as_str());
            out.append(" (config)");
            assert(out@ =~= c + (clock::duration_text(schedule.answer_timeout_secs as nat)
                + " (config)"@));
        },
    }
    out.append("\nChange: !setschedule [guesses=N] [photos=N] [timeout=N] | !setschedule reset");
    out
}

/// The overrides after a request, and the answer.
pub open spec fn override_outcome(
    words: Seq<Seq<char>>,
    over: ScheduleOverrides,
    schedule: ScheduleConfig,
) -> (ScheduleOverrides, Seq<char>) {
    if words.len() <= 1 {
        (over, overrides_text(over, schedule))
    } else if words.len() == 2 && words[1] == "reset"@ {
        (no_schedule_overrides(), "✅ Schedule overrides cleared — using config defaults."@)
    } else {
        match override_options(words, 1, no_schedule_overrides()) {
            Err(e) => (over, e),
            Ok(given) => (
                merged(over, given),
                "✅ Schedule updated: "@ + text::joined(given_parts(given), ", "@),
            ),
        }
    }
}

/// Everything but the overrides of the recurring schedule stays as it is.
pub open spec fn only_overrides_changed(a: State, b: State) -> bool {
    &&& a.cached_guesses == b.cached_guesses
    &&& a.created_at == b.created_at
    &&& a.last_game_dates == b.last_game_dates
    &&& a.pending_join == b.pending_join
    &&& a.scheduled_once == b.scheduled_once
    &&& a.user_langs == b.user_langs
    &&& a.active_round == b.active_round
}

/// Handles a request to change the recurring schedule and returns the answer.
pub fn set_schedule(state: &mut State, schedule: &ScheduleConfig, body: &str) -> (out: String)
    ensures
        only_overrides_changed(*old(state), *final(state)),
        (final(state).schedule_overrides, out@) == override_outcome(
            text::words(body@),
            old(state).schedule_overrides,
            *schedule,
        ),
        text::words(body@).len() <= 1 ==> final(state).schedule_overrides
            == old(state).schedule_overrides,
        text::words(body@).len() == 2 && text::words(body@)[1] == "reset"@ ==> {
            &&& final(state).schedule_overrides.guesses_per_round is None
            &&& final(state).schedule_overrides.answer_timeout_secs is None
            &&& final(state).schedule_overrides.photos_per_location is None
        },
        text::words(body@).len() > 1 && !(text::words(body@).len() == 2 && text::words(body@)[1]
            == "reset"@) ==> match override_options(
            text::words(body@),
            1,
            no_schedule_overrides(),
        ) {
            Err(e) => out@ == e && final(state).schedule_overrides == old(state).schedule_overrides,
            Ok(given) => {
                &&& given.guesses_per_round is Some ==> final(state).schedule_overrides.guesses_per_round == given.guesses_per_round
                &&& given.guesses_per_round is None ==> final(state).schedule_overrides.guesses_per_round
                    == old(state).schedule_overrides.guesses_per_round
                &&& given.answer_timeout_secs is Some ==> final(state).schedule_overrides.answer_timeout_secs == given.answer_timeout_secs
                &&& given.answer_timeout_secs is None ==> final(state).schedule_overrides.answer_timeout_secs
                    == old(state).schedule_overrides.answer_timeout_secs
                &&& given.photos_per_location is Some ==> final(state).schedule_overrides.photos_per_location == given.photos_per_location
                &&& given.photos_per_location is None ==> final(state).schedule_overrides.photos_per_location
                    == old(state).schedule_overrides.photos_per_location
            },
        },
{
    let words = text::split_words(body);
    let ghost ws = text::words(body@);
    assert(ws.len() == words@.len());
    if words.len() <= 1 {
        return overrides_message(state.schedule_overrides, schedule);
    }
    assert(ws[1] == words@[1]@);
    if words.len() == 2 && text::same_text(words[1].as_str(), "reset") {
        state.schedule_overrides = ScheduleOverrides::default();
        return text::owned("✅ Schedule overrides cleared — using config defaults.");
    }
    let given = match read_override_options(&words) {
        Ok(g) => g,
        Err(e) => {
            return e;
        },
    };
    let now = state.schedule_overrides;
    state.schedule_overrides =
    ScheduleOverrides {
        guesses_per_round: if given.guesses_per_round.is_some() {
            given.guesses_per_round
        } else {
            now.guesses_per_round
        },
        answer_timeout_secs: if given.answer_timeout_secs.is_some() {
            given.answer_timeout_secs
        } else {
            now.answer_timeout_secs
        },
        photos_per_location: if given.photos_per_location.is_some() {
            given.photos_per_location
        } else {
            now.photos_per_location
        },
    };
    given_message(given)
}

// ── The clock ticks ──────────────────────────────────────────────────────────

/// One tick of the clock. At most one round is started in it.
pub struct Tick {
    pub now: LocalClock,
    /// Whether a round was started in this tick.
    pub spawned: bool,
}

/// Whether the clock stands at the minute at which the join window opens.
pub open spec fn is_opening_minute(now_secs: int, game_secs: int, reminder: u64) -> bool {
    now_secs / 60 == opening(game_secs, reminder) / 60
}

/// The second of the day of a time.
pub open spec fn second_of(t: (nat, nat)) -> int {
    (t.0 * 3600 + t.1 * 60) as int
}

/// What becomes of a slot of the recurring schedule.
#[derive(Clone, Copy, Debug, PartialEq, Eq, Structural)]
pub enum SlotOutcome {
    /// The text of the slot is no time.
    Invalid,
    NotNow,
    /// The game of today was played.
    Played,
    /// Another game is running.
    Busy,
    /// Another round was started in this tick.
    Taken,
    /// The round of this slot is started.
    Fire,
}

/// What becomes of a slot.
pub open spec fn slot_outcome(
    slot: Seq<char>,
    now: LocalClock,
    reminder: u64,
    dates: Map<Seq<char>, DayNumber>,
    running: bool,
    spawned: bool,
) -> SlotOutcome {
    match config::clock_time(slot) {
        None => SlotOutcome::Invalid,
        Some(t) => if !is_opening_minute(now.secs as int, second_of(t), reminder) {
            SlotOutcome::NotNow
        } else if dates.dom().contains(slot) && dates[slot] == now.day {
            SlotOutcome::Played
        } else if running {
            SlotOutcome::Busy
        } else if spawned {
            SlotOutcome::Taken
        } else {
            SlotOutcome::Fire
        },
    }
}

/// What becomes of a one-time game.
#[derive(Clone, Copy, Debug, PartialEq, Eq, Structural)]
pub enum OnceOutcome {
    OtherDay,
    /// Its time cannot be read: it is removed.
    Invalid,
    NotNow,
    /// Another game is running: it is dropped.
    Busy,
    /// Another round was started in this tick: it is dropped.
    Taken,
    /// Its round is started, with these overrides.
    Fire(GameOverrides),
}

/// What becomes of a one-time game.
pub open spec fn once_outcome(
    e: ScheduledOnceView,
    now: LocalClock,
    default_reminder: u64,
    running: bool,
    spawned: bool,
) -> OnceOutcome {
    if e.date != now.day {
        OnceOutcome::OtherDay
    } else {
        match config::clock_time(e.game_time) {
            None => OnceOutcome::Invalid,
            Some(t) => {
                let reminder = match e.reminder_before_secs {
                    Some(s) => s,
                    None => default_reminder,
                };
                if !is_opening_minute(now.secs as int, second_of(t), reminder) {
                    OnceOutcome::NotNow
                } else if running {
                    OnceOutcome::Busy
                } else if spawned {
                    OnceOutcome::Taken
                } else {
                    OnceOutcome::Fire(
                        GameOverrides {
                            reminder_before_secs: e.reminder_before_secs,
                            answer_timeout_secs: e.answer_timeout_secs,
                            guesses_per_round: e.guesses_per_round,
                        },
                    )
                }
            },
        }
    }
}

/// The entries other than `e`, in order.
pub open spec fn entries_without(s: Seq<ScheduledOnceView>, e: ScheduledOnceView) -> Seq<
    ScheduledOnceView,
>
    decreases s.len(),
{
    if s.len() == 0 {
        Seq::empty()
    } else if s.last() == e {
        entries_without(s.drop_last(), e)
    } else {
        entries_without(s.drop_last(), e).push(s.last())
    }
}

fn remove_entry(entries: &mut Vec<ScheduledOnce>, e: &ScheduledOnce)
    ensures
        once_views(final(entries)@) == entries_without(once_views(old(entries)@), e@),
{
    let mut kept: Vec<ScheduledOnce> = Vec::new();
    let ghost all = once_views(entries@);
    let mut i: usize = 0;
    assert(all.take(0) =~= Seq::empty());
    assert(once_views(kept@) =~= Seq::empty());
    while i < entries.len()
        invariant
            i <= entries@.len(),
            entries@ == old(entries)@,
            all == once_views(entries@),
            once_views(kept@) == entries_without(all.take(i as int), e@),
        decreases entries@.len() - i,
    {
        assert(all.take(i as int + 1).drop_last() =~= all.take(i as int));
        assert(all[i as int] == entries@[i as int]@);
        if !entries[i].same_as(e) {
            let ghost before = once_views(kept@);
            kept.push(entries[i].clone());
            assert(once_views(kept@) =~= before.push(all[i as int]));
        }
        i = i + 1;
    }
    assert(all.take(all.len() as int) =~= all);
    *entries = kept;
}

/// Everything but the dates of the last games stays as it is.
pub open spec fn only_dates_changed(a: State, b: State) -> bool {
    &&& a.cached_guesses == b.cached_guesses
    &&& a.created_at == b.created_at
    &&& a.pending_join == b.pending_join
    &&& a.scheduled_once == b.scheduled_once
    &&& a.user_langs == b.user_langs
    &&& a.schedule_overrides == b.schedule_overrides
    &&& a.active_round == b.active_round
}

impl Tick {
    /// A tick in which nothing was started yet.
    pub fn new(now: LocalClock) -> (t: Self)
        ensures
            t.now == now,
            !t.spawned,
    {
        Tick { now, spawned: false }
    }

    /// Looks at a slot of the recurring schedule. Where its round is started,
    /// the slot is marked as played today.
    pub fn consider_slot(
        &mut self,
        state: &mut State,
        slot: &str,
        reminder: u64,
        running: bool,
    ) -> (r: SlotOutcome)
        requires
            old(self).now.secs < 86400,
        ensures
            r == slot_outcome(
                slot@,
                old(self).now,
                reminder,
                old(state).last_game_dates@,
                running,
                old(self).spawned,
            ),
            final(self).now == old(self).now,
            final(self).spawned == (old(self).spawned || r == SlotOutcome::Fire),
            only_dates_changed(*old(state), *final(state)),
            final(state).last_game_dates@ == (if r == SlotOutcome::Fire {
                old(state).last_game_dates@.insert(slot@, old(self).now.day)
            } else {
                old(state).last_game_dates@
            }),
            r == SlotOutcome::Invalid <==> config::clock_time(slot@) is None,
            config::clock_time(slot@) matches Some((hour, minute)) ==> {
                let o = (hour * 3600 + minute * 60 - (if reminder < 0x8000_0000_0000_0000 {
                    reminder as int
                } else {
                    reminder - 0x1_0000_0000_0000_0000
                })) % 86400;
                let now = old(self).now;
                let there = o - o % 60 <= now.secs < o - o % 60 + 60;
                let played = old(state).last_game_dates@.dom().contains(slot@)
                    && old(state).last_game_dates@[slot@] == now.day;
                &&& r == SlotOutcome::NotNow <==> !there
                &&& r == SlotOutcome::Played <==> there && played
                &&& r == SlotOutcome::Busy <==> there && !played && running
                &&& r == SlotOutcome::Taken <==> there && !played && !running && old(self).spawned
                &&& r == SlotOutcome::Fire <==> there && !played && !running && !old(self).spawned
            },
    {
        let (h, m) = match ScheduleConfig::parse_game_time(slot) {
            Some(t) => t,
            None => {
                return SlotOutcome::Invalid;
            },
        };
        let game_secs: u32 = h * 3600 + m * 60;
        if self.now.secs / 60 != opening_second(game_secs, reminder) / 60 {
            return SlotOutcome::NotNow;
        }
        if let Some(d) = state.last_game_dates.get(slot) {
            if *d == self.now.day {
                return SlotOutcome::Played;
            }
        }
        if running {
            return SlotOutcome::Busy;
        }
        if self.spawned {
            return SlotOutcome::Taken;
        }
        state.last_game_dates.insert(text::owned(slot), self.now.day);
        self.spawned = true;
        SlotOutcome::Fire
    }

    /// Looks at a one-time game. Where its moment has come, or its time cannot
    /// be read, it is taken off the list.
    pub fn consider_once(
        &mut self,
        state: &mut State,
        entry: &ScheduledOnce,
        default_reminder: u64,
        running: bool,
    ) -> (r: OnceOutcome)
        requires
            old(self).now.secs < 86400,
        ensures
            r == once_outcome(
                entry@,
                old(self).now,
                default_reminder,
                running,
                old(self).spawned,
            ),
            final(self).now == old(self).now,
            final(self).spawned == (old(self).spawned || r is Fire),
            only_once_changed(*old(state), *final(state)),
            once_views(final(state).scheduled_once@) == (if r is OtherDay || r is NotNow {
                once_views(old(state).scheduled_once@)
            } else {
                entries_without(once_views(old(state).scheduled_once@), entry@)
            }),
            r == OnceOutcome::OtherDay <==> entry.date != old(self).now.day,
            r == OnceOutcome::Invalid <==> entry.date == old(self).now.day && config::clock_time(
                entry.game_time@,
            ) is None,
            entry.date == old(self).now.day ==> (config::clock_time(entry.game_time@) matches Some(
                (hour, minute),
            ) ==> {
                let reminder = if entry.reminder_before_secs is Some {
                    entry.reminder_before_secs->0
                } else {
                    default_reminder
                };
                let o = (hour * 3600 + minute * 60 - (if reminder < 0x8000_0000_0000_0000 {
                    reminder as int
                } else {
                    reminder - 0x1_0000_0000_0000_0000
                })) % 86400;
                let there = o - o % 60 <= old(self).now.secs < o - o % 60 + 60;
                &&& r == OnceOutcome::NotNow <==> !there
                &&& r == OnceOutcome::Busy <==> there && running
                &&& r == OnceOutcome::Taken <==> there && !running && old(self).spawned
                &&& r is Fire <==> there && !running && !old(self).spawned
            }),
            r matches OnceOutcome::Fire(over) ==> {
                &&& over.reminder_before_secs == entry.reminder_before_secs
                &&& over.answer_timeout_secs == entry.answer_timeout_secs
                &&& over.guesses_per_round == entry.guesses_per_round
            },
            !(r is OtherDay) && !(r is NotNow) ==> !once_views(
                final(state).scheduled_once@,
            ).contains(entry@),
            forall|e: ScheduledOnceView|
                e != entry@ ==> (once_views(old(state).scheduled_once@).contains(e)
                    <==> #[trigger] once_views(final(state).scheduled_once@).contains(e)),
    {
        proof {
            law_removed_games_are_gone(once_views(state.scheduled_once@), entry@);
            law_other_games_stay(once_views(state.scheduled_once@), entry@);
        }
        if entry.date != self.now.day {
            return OnceOutcome::OtherDay;
        }
        let (h, m) = match ScheduleConfig::parse_game_time(entry.game_time.as_str()) {
            Some(t) => t,
            None => {
                remove_entry(&mut state.scheduled_once, entry);
                return OnceOutcome::Invalid;
            },
        };
        let reminder: u64 = match entry.reminder_before_secs {
            Some(s) => s,
            None => default_reminder,
        };
        let game_secs: u32 = h * 3600 + m * 60;
        if self.now.secs / 60 != opening_second(game_secs, reminder) / 60 {
            return OnceOutcome::NotNow;
        }
        remove_entry(&mut state.scheduled_once, entry);
        if running {
            return OnceOutcome::Busy;
        }
        if self.spawned {
            return OnceOutcome::Taken;
        }
        self.spawned = true;
        OnceOutcome::Fire(
            GameOverrides {
                reminder_before_secs: entry.reminder_before_secs,
                answer_timeout_secs: entry.answer_timeout_secs,
                guesses_per_round: entry.guesses_per_round,
            },
        )
    }
}

/// Something that is looked at in a tick: a slot or a one-time game, each with
/// whether a game is running at that moment.
pub enum Considered {
    Slot { slot: Seq<char>, reminder: u64, dates: Map<Seq<char>, DayNumber>, running: bool },
    Once { entry: ScheduledOnceView, reminder: u64, running: bool },
}

/// Whether looking at it starts a round.
pub open spec fn starts_round(c: Considered, now: LocalClock, spawned: bool) -> bool {
    match c {
        Considered::Slot { slot, reminder, dates, running } => slot_outcome(
            slot,
            now,
            reminder,
            dates,
            running,
            spawned,
        ) == SlotOutcome::Fire,
        Considered::Once { entry, reminder, running } => once_outcome(
            entry,
            now,
            reminder,
            running,
            spawned,
        ) is Fire,
    }
}

/// How many rounds are started, and whether any was, after all of these were
/// looked at in turn.
pub open spec fn started(cs: Seq<Considered>, now: LocalClock) -> (nat, bool)
    decreases cs.len(),
{
    if cs.len() == 0 {
        (0, false)
    } else {
        let (n, spawned) = started(cs.drop_last(), now);
        if starts_round(cs.last(), now, spawned) {
            (n + 1, true)
        } else {
            (n, spawned)
        }
    }
}

/// At most one round is started in a tick, whatever is looked at in it.
pub proof fn law_one_round_per_tick(cs: Seq<Considered>, now: LocalClock)
    ensures
        started(cs, now).0 <= 1,
        started(cs, now).1 == (started(cs, now).0 == 1),
    decreases cs.len(),
{
    if cs.len() > 0 {
        law_one_round_per_tick(cs.drop_last(), now);
    }
}

/// A slot whose round was started is not started again on the same day.
pub proof fn law_slot_fires_once_a_day(
    slot: Seq<char>,
    day: DayNumber,
    later: LocalClock,
    reminder: u64,
    dates: Map<Seq<char>, DayNumber>,
    running: bool,
    spawned: bool,
)
    requires
        later.day == day,
    ensures
        slot_outcome(slot, later, reminder, dates.insert(slot, day), running, spawned)
            != SlotOutcome::Fire,
{
}

/// A slot is looked at in one minute of the day, whatever the hour: the minute that
/// holds the second at which its join window opens.
pub proof fn law_slots_fire_in_their_minute(
    slot: Seq<char>,
    now: LocalClock,
    reminder: u64,
    dates: Map<Seq<char>, DayNumber>,
    hour: nat,
    minute: nat,
)
    requires
        now.secs < 86400,
        config::clock_time(slot) == Some((hour, minute)),
        reminder < 0x8000_0000_0000_0000,
    ensures
        ({
            let o = (hour * 3600 + minute * 60 - reminder) % 86400;
            let there = o - o % 60 <= now.secs < o - o % 60 + 60;
            &&& slot_outcome(slot, now, reminder, dates, false, false) == SlotOutcome::Fire
                ==> there
            &&& there && !(dates.dom().contains(slot) && dates[slot] == now.day) ==> slot_outcome(
                slot,
                now,
                reminder,
                dates,
                false,
                false,
            ) == SlotOutcome::Fire
        }),
{
}

/// Taking a one-time game off the list leaves every other game on it, in order.
pub proof fn law_other_games_stay(s: Seq<ScheduledOnceView>, e: ScheduledOnceView)
    ensures
        entries_without(s, e) == s.filter(|x: ScheduledOnceView| x != e),
        forall|x: ScheduledOnceView|
            x != e ==> (s.contains(x) <==> #[trigger] entries_without(s, e).contains(x)),
    decreases s.len(),
{
    reveal(Seq::filter);
    if s.len() > 0 {
        law_other_games_stay(s.drop_last(), e);
        let rest = entries_without(s.drop_last(), e);
        let out = entries_without(s, e);
        assert forall|x: ScheduledOnceView| x != e implies (s.contains(x)
            <==> #[trigger] out.contains(x)) by {
            if s.contains(x) {
                let i = choose|i: int| 0 <= i < s.len() && s[i] == x;
                if i < s.len() - 1 {
                    assert(s.drop_last()[i] == x);
                    assert(rest.contains(x));
                    let j = choose|j: int| 0 <= j < rest.len() && rest[j] == x;
                    assert(out[j] == x);
                } else {
                    assert(out[rest.len() as int] == x);
                }
            }
            if out.contains(x) {
                let j = choose|j: int| 0 <= j < out.len() && out[j] == x;
                if j < rest.len() {
                    assert(rest[j] == x);
                    assert(rest.contains(x));
                    assert(s.drop_last().contains(x));
                    let i = choose|i: int| 0 <= i < s.len() - 1 && s.drop_last()[i] == x;
                    assert(s[i] == x);
                } else {
                    assert(s[s.len() - 1] == x);
                }
            }
        }
    }
}

/// A one-time game that was taken off the list is no longer on it.
pub proof fn law_removed_games_are_gone(s: Seq<ScheduledOnceView>, e: ScheduledOnceView)
    ensures
        !entries_without(s, e).contains(e),
    decreases s.len(),
{
    if s.len() > 0 {
        let rest = entries_without(s.drop_last(), e);
        law_removed_games_are_gone(s.drop_last(), e);
        if s.last() != e {
            let out = rest.push(s.last());
            if out.contains(e) {
                let i = choose|i: int| 0 <= i < out.len() && out[i] == e;
                assert(rest[i] == e);
                assert(rest.contains(e));
            }
        }
    }
}

} // verus!
