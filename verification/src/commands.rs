//! Chat commands: which one a message is, who may give it, and the answers.

use vstd::prelude::*;

use crate::clock;
use crate::config;
use crate::config::ScheduleConfig;
use crate::lang;
use crate::round;
use crate::scheduling;
use crate::state::ScheduledOnce;
use crate::state::ScheduledOnceView;
use crate::state::ScheduleOverrides;
use crate::state::State;
use crate::text;

verus! {

// ── Dispatch ─────────────────────────────────────────────────────────────────

/// The lower-case form of a text, as `str::to_lowercase` gives it.
pub uninterp spec fn lowercase(s: Seq<char>) -> Seq<char>;

/// `str::to_lowercase` depends on the text alone. It turns the capital letters of
/// an ASCII text into small ones and changes nothing else in it.
pub assume_specification[ str::to_lowercase ](s: &str) -> (r: String)
    ensures
        r@ == lowercase(s@),
        vstd::utf8::is_ascii_chars(s@) ==> r@ == s@.map_values(|c: char| text::ascii_lower(c)),
;

/// What a message asks for.
#[derive(Clone, Copy, Debug, PartialEq, Eq, Structural)]
pub enum Command {
    Start,
    Cancel,
    Schedule,
    SetSchedule,
    Prefetch,
    ResetStats,
    Scores,
    Scores90,
    MyStats,
    Countries,
    GameInfo,
    Fastest,
    Lang,
    Help,
    /// No command of this bot.
    Unknown,
}

/// The command with this name.
pub open spec fn command_named(name: Seq<char>) -> Command {
    if name == "!startgeo"@ || name == "!geoguessr"@ {
        Command::Start
    } else if name == "!cancelgeo"@ {
        Command::Cancel
    } else if name == "!schedulegeo"@ {
        Command::Schedule
    } else if name == "!setschedule"@ {
        Command::SetSchedule
    } else if name == "!prefetch"@ {
        Command::Prefetch
    } else if name == "!resetstats"@ {
        Command::ResetStats
    } else if name == "!scores"@ || name == "!leaderboard"@ {
        Command::Scores
    } else if name == "!scores90"@ || name == "!leaderboard90"@ {
        Command::Scores90
    } else if name == "!mystats"@ {
        Command::MyStats
    } else if name == "!countries"@ {
        Command::Countries
    } else if name == "!gameinfo"@ {
        Command::GameInfo
    } else if name == "!fastest"@ {
        Command::Fastest
    } else if name == "!lang"@ {
        Command::Lang
    } else if name == "!help"@ {
        Command::Help
    } else {
        Command::Unknown
    }
}

/// A number made of letters of a command's name and of its length.
spec fn name_key(name: Seq<char>) -> int {
    (name[1] as int * 128 + name[2] as int) * 100 + name.len()
}

proof fn lemma_names_differ()
    ensures
        name_key("!startgeo"@) == 1483609,
        name_key("!geoguessr"@) == 1328510,
        name_key("!cancelgeo"@) == 1276910,
        name_key("!schedulegeo"@) == 1481912,
        name_key("!setschedule"@) == 1482112,
        name_key("!prefetch"@) == 1445009,
        name_key("!resetstats"@) == 1469311,
        name_key("!scores"@) == 1481907,
        name_key("!leaderboard"@) == 1392512,
        name_key("!scores90"@) == 1481909,
        name_key("!leaderboard90"@) == 1392514,
        name_key("!mystats"@) == 1407308,
        name_key("!countries"@) == 1278310,
        name_key("!gameinfo"@) == 1328109,
        name_key("!fastest"@) == 1315308,
        name_key("!lang"@) == 1392105,
        name_key("!help"@) == 1341305,
{
    reveal_strlit("!startgeo");
    reveal_strlit("!geoguessr");
    reveal_strlit("!cancelgeo");
    reveal_strlit("!schedulegeo");
    reveal_strlit("!setschedule");
    reveal_strlit("!prefetch");
    reveal_strlit("!resetstats");
    reveal_strlit("!scores");
    reveal_strlit("!leaderboard");
    reveal_strlit("!scores90");
    reveal_strlit("!leaderboard90");
    reveal_strlit("!mystats");
    reveal_strlit("!countries");
    reveal_strlit("!gameinfo");
    reveal_strlit("!fastest");
    reveal_strlit("!lang");
    reveal_strlit("!help");
}

/// The command with this name.
pub fn command_of(name: &str) -> (r: Command)
    ensures
        r == command_named(name@),
        r == Command::Start <==> name@ == "!startgeo"@ || name@ == "!geoguessr"@,
        r == Command::Cancel <==> name@ == "!cancelgeo"@,
        r == Command::Schedule <==> name@ == "!schedulegeo"@,
        r == Command::SetSchedule <==> name@ == "!setschedule"@,
        r == Command::Prefetch <==> name@ == "!prefetch"@,
        r == Command::ResetStats <==> name@ == "!resetstats"@,
        r == Command::Scores <==> name@ == "!scores"@ || name@ == "!leaderboard"@,
        r == Command::Scores90 <==> name@ == "!scores90"@ || name@ == "!leaderboard90"@,
        r == Command::MyStats <==> name@ == "!mystats"@,
        r == Command::Countries <==> name@ == "!countries"@,
        r == Command::GameInfo <==> name@ == "!gameinfo"@,
        r == Command::Fastest <==> name@ == "!fastest"@,
        r == Command::Lang <==> name@ == "!lang"@,
        r == Command::Help <==> name@ == "!help"@,
{
    proof {
        lemma_names_differ();
    }
    if text::same_text(name, "!startgeo") || text::same_text(name, "!geoguessr") {
        Command::Start
    } else if text::same_text(name, "!cancelgeo") {
        Command::Cancel
    } else if text::same_text(name, "!schedulegeo") {
        Command::Schedule
    } else if text::same_text(name, "!setschedule") {
        Command::SetSchedule
    } else if text::same_text(name, "!prefetch") {
        Command::Prefetch
    } else if text::same_text(name, "!resetstats") {
        Command::ResetStats
    } else if text::same_text(name, "!scores") || text::same_text(name, "!leaderboard") {
        Command::Scores
    } else if text::same_text(name, "!scores90") || text::same_text(name, "!leaderboard90") {
        Command::Scores90
    } else if text::same_text(name, "!mystats") {
        Command::MyStats
    } else if text::same_text(name, "!countries") {
        Command::Countries
    } else if text::same_text(name, "!gameinfo") {
        Command::GameInfo
    } else if text::same_text(name, "!fastest") {
        Command::Fastest
    } else if text::same_text(name, "!lang") {
        Command::Lang
    } else if text::same_text(name, "!help") {
        Command::Help
    } else {
        Command::Unknown
    }
}

/// The first word of a text, empty where there is none.
pub open spec fn first_word(s: Seq<char>) -> Seq<char> {
    let ws = text::words(s);
    if ws.len() == 0 {
        ""@
    } else {
        ws[0]
    }
}

/// What a message asks for: its first word decides, whatever its case.
pub fn parse_command(body: &str) -> (r: Command)
    ensures
        r == command_named(lowercase(first_word(body@))),
{
    let words = text::split_words(body);
    let ghost ws = text::words(body@);
    assert(ws.len() == words@.len());
    if words.len() == 0 {
        command_of("".to_lowercase().as_str())
    } else {
        assert(ws[0] == words@[0]@);
        command_of(words[0].as_str().to_lowercase().as_str())
    }
}

/// Whether a command is reserved for admins.
pub open spec fn is_reserved(c: Command) -> bool {
    c == Command::Start || c == Command::Cancel || c == Command::Schedule || c
        == Command::SetSchedule || c == Command::Prefetch || c == Command::ResetStats
}

/// Whether `sender` may give the command: admins may give any, everybody else
/// those that are not reserved.
pub fn may_run(c: Command, admins: &Vec<String>, sender: &str) -> (r: bool)
    ensures
        r == (is_reserved(c) ==> text::views(admins@).contains(sender@)),
        text::views(admins@).contains(sender@) ==> r,
        !text::views(admins@).contains(sender@) ==> (r <==> c != Command::Start && c
            != Command::Cancel && c != Command::Schedule && c != Command::SetSchedule && c
            != Command::Prefetch && c != Command::ResetStats),
{
    let reserved: bool = c == Command::Start || c == Command::Cancel || c == Command::Schedule || c
        == Command::SetSchedule || c == Command::Prefetch || c == Command::ResetStats;
    !reserved || round::has_id(admins, sender)
}

/// What becomes of a message that may be a command.
#[derive(Clone, Copy, Debug, PartialEq, Eq, Structural)]
pub enum Admission {
    /// It is no command.
    Ignored,
    /// Its sender may not give the command.
    Refused,
    /// The command is run.
    Run(Command),
}

/// What becomes of a command, given by an admin or by somebody else.
pub open spec fn admission(c: Command, admin: bool) -> Admission {
    if c == Command::Unknown {
        Admission::Ignored
    } else if is_reserved(c) && !admin {
        Admission::Refused
    } else {
        Admission::Run(c)
    }
}

/// Decides what becomes of a message.
pub fn screen(body: &str, admins: &Vec<String>, sender: &str) -> (r: Admission)
    ensures
        r == admission(
            command_named(lowercase(first_word(body@))),
            text::views(admins@).contains(sender@),
        ),
        r matches Admission::Run(c) ==> {
            &&& c == command_named(lowercase(first_word(body@)))
            &&& c != Command::Unknown
            &&& c == Command::Start || c == Command::Cancel || c == Command::Schedule || c
                == Command::SetSchedule || c == Command::Prefetch || c == Command::ResetStats
                ==> text::views(admins@).contains(sender@)
        },
        r == Admission::Ignored <==> command_named(lowercase(first_word(body@)))
            == Command::Unknown,
        r == Admission::Refused ==> !text::views(admins@).contains(sender@),
{
    let c: Command = parse_command(body);
    if c == Command::Unknown {
        Admission::Ignored
    } else if may_run(c, admins, sender) {
        Admission::Run(c)
    } else {
        Admission::Refused
    }
}

/// Somebody who is no admin is refused exactly the reserved commands, and an admin
/// is refused none.
pub proof fn law_reserved_commands_need_an_admin(c: Command)
    ensures
        admission(c, false) == Admission::Refused <==> is_reserved(c),
        admission(c, true) != Admission::Refused,
        admission(c, true) == Admission::Ignored <==> c == Command::Unknown,
{
}

// ── Starting ─────────────────────────────────────────────────────────────────

/// The answer to a request to start a round at once.
pub open spec fn start_text(
    running: bool,
    over: ScheduleOverrides,
    schedule: ScheduleConfig,
) -> Seq<char> {
    if running {
        "⚠️ A game is already in progress!"@
    } else {
        "🌍 Starting! "@ + text::decimal(
            round::first_of(None, over.guesses_per_round, schedule.guesses_per_round) as nat,
        ) + " guess(es) · "@ + clock::duration_text(
            round::first_of(None, over.answer_timeout_secs, schedule.answer_timeout_secs) as nat,
        ) + " each."@
    }
}

/// The answer to a request to start a round at once.
pub fn start_message(running: bool, over: &ScheduleOverrides, schedule: &ScheduleConfig) -> (out:
    String)
    ensures
        out@ == start_text(running, *over, *schedule),
        running ==> out@ == "⚠️ A game is already in progress!"@,
        !running ==> out@ == "🌍 Starting! "@ + text::decimal(
            (if over.guesses_per_round is Some {
                over.guesses_per_round->0
            } else {
                schedule.guesses_per_round
            }) as nat,
        ) + " guess(es) · "@ + clock::duration_text(
            (if over.answer_timeout_secs is Some {
                over.answer_timeout_secs->0
            } else {
                schedule.answer_timeout_secs
            }) as nat,
        ) + " each."@,
{
    if running {
        return text::owned("⚠️ A game is already in progress!");
    }
    let mut out = text::owned("🌍 Starting! ");
    text::push_decimal(&mut out, round::effective_guesses_per_round(schedule, over) as u128);
    out.append(" guess(es) · ");
    out.append(
        clock::format_duration(round::effective_answer_timeout(schedule, over)).as_str(),
    );
    out.append(" each.");
    out
}

// ── Cancelling ───────────────────────────────────────────────────────────────

/// Whether a character is a quotation mark.
pub open spec fn is_quote(c: char) -> bool {
    c == '"' || c == '\''
}

/// The first position from `i` up to `e` that holds no quotation mark.
pub open spec fn skip_quotes(s: Seq<char>, i: int, e: int) -> int
    decreases e - i,
{
    if 0 <= i < e <= s.len() && is_quote(s[i]) {
        skip_quotes(s, i + 1, e)
    } else {
        i
    }
}

/// The end of `s` up to `e`, not going below `b`, without quotation marks.
pub open spec fn drop_quotes(s: Seq<char>, b: int, e: int) -> int
    decreases e - b,
{
    if b < e <= s.len() && is_quote(s[e - 1]) {
        drop_quotes(s, b, e - 1)
    } else {
        e
    }
}

/// The text without quotation marks at its two ends.
pub open spec fn unquoted(s: Seq<char>) -> Seq<char> {
    let b = skip_quotes(s, 0, s.len() as int);
    s.subrange(b, drop_quotes(s, b, s.len() as int))
}

/// What follows the first white space.
pub open spec fn after_space(s: Seq<char>) -> Seq<char> {
    let p = text::word_end(s, 0);
    if p < s.len() {
        s.skip(p + 1)
    } else {
        ""@
    }
}

/// The argument of a request to cancel: what follows the command, without white
/// space and quotation marks around it.
pub open spec fn cancel_argument(body: Seq<char>) -> Seq<char> {
    unquoted(text::trimmed(after_space(body)))
}

/// What follows a command and a space is its argument, with quotation marks around it or
/// without.
pub proof fn law_cancel_argument_is_what_follows(command: Seq<char>, arg: Seq<char>)
    requires
        forall|i: int| 0 <= i < command.len() ==> !text::is_space(#[trigger] command[i]),
        arg.len() > 0,
        !text::is_space(arg[0]) && !text::is_space(arg.last()),
        arg[0] != '"' && arg[0] != '\'' && arg.last() != '"' && arg.last() != '\'',
    ensures
        cancel_argument(command + seq![' '] + arg) == arg,
        cancel_argument(command + seq![' ', '"'] + arg + seq!['"']) == arg,
        cancel_argument(command + seq![' ', '\''] + arg + seq!['\'']) == arg,
        cancel_argument(command) == Seq::<char>::empty(),
{
    lemma_argument(command, arg);
    assert(unquoted(arg) == arg) by {
        assert(skip_quotes(arg, 0, arg.len() as int) == 0);
        assert(drop_quotes(arg, 0, arg.len() as int) == arg.len());
        assert(arg.subrange(0, arg.len() as int) =~= arg);
    }
    let a = seq!['"'] + arg + seq!['"'];
    lemma_quoted('"', arg);
    lemma_argument(command, a);
    assert(command + seq![' ', '"'] + arg + seq!['"'] =~= command + seq![' '] + a);
    let b = seq!['\''] + arg + seq!['\''];
    lemma_quoted('\'', arg);
    lemma_argument(command, b);
    assert(command + seq![' ', '\''] + arg + seq!['\''] =~= command + seq![' '] + b);
    lemma_word_runs(command, 0, command.len() as int);
    reveal_strlit("");
    let none = after_space(command);
    assert(none =~= Seq::empty());
    text::law_trimmed(none);
    assert(text::trimmed(none).len() == 0);
    assert(unquoted(text::trimmed(none)) =~= Seq::empty());
}

proof fn lemma_word_runs(s: Seq<char>, i: int, e: int)
    requires
        0 <= i <= e <= s.len(),
        forall|k: int| i <= k < e ==> !text::is_space(#[trigger] s[k]),
        e < s.len() ==> text::is_space(s[e]),
    ensures
        text::word_end(s, i) == e,
    decreases e - i,
{
    if i < e {
        lemma_word_runs(s, i + 1, e);
    }
}

proof fn lemma_argument(command: Seq<char>, arg: Seq<char>)
    requires
        forall|i: int| 0 <= i < command.len() ==> !text::is_space(#[trigger] command[i]),
        arg.len() > 0,
        !text::is_space(arg[0]) && !text::is_space(arg.last()),
    ensures
        text::trimmed(after_space(command + seq![' '] + arg)) == arg,
{
    let s = command + seq![' '] + arg;
    let n = command.len() as int;
    assert forall|k: int| 0 <= k < n implies !text::is_space(#[trigger] s[k]) by {
        assert(s[k] == command[k]);
    }
    assert(s[n] == ' ');
    lemma_word_runs(s, 0, n);
    assert(s.skip(n + 1) =~= arg);
    text::law_trimmed_stays(arg);
}

proof fn lemma_quoted(q: char, arg: Seq<char>)
    requires
        q == '"' || q == '\'',
        arg.len() > 0,
        arg[0] != '"' && arg[0] != '\'' && arg.last() != '"' && arg.last() != '\'',
    ensures
        unquoted(seq![q] + arg + seq![q]) == arg,
        !text::is_space((seq![q] + arg + seq![q])[0]),
        !text::is_space((seq![q] + arg + seq![q]).last()),
{
    let s = seq![q] + arg + seq![q];
    let n = s.len() as int;
    assert(s[0] == q && s[n - 1] == q && s[1] == arg[0] && s[n - 2] == arg.last());
    reveal_with_fuel(skip_quotes, 3);
    reveal_with_fuel(drop_quotes, 3);
    assert(skip_quotes(s, 0, n) == 1);
    assert(drop_quotes(s, 1, n) == n - 1);
    assert(s.subrange(1, n - 1) =~= arg);
}

fn unquote(s: &str) -> (out: String)
    ensures
        out@ == unquoted(s@),
{
    let v = text::chars_of(s);
    let n: usize = v.len();
    let mut b: usize = 0;
    while b < n && (v[b] == '"' || v[b] == '\'')
        invariant
            b <= n,
            n == v@.len(),
            skip_quotes(v@, b as int, n as int) == skip_quotes(v@, 0, n as int),
        decreases n - b,
    {
        b = b + 1;
    }
    let mut e: usize = n;
    while e > b && (v[e - 1] == '"' || v[e - 1] == '\'')
        invariant
            b <= e <= n,
            n == v@.len(),
            drop_quotes(v@, b as int, e as int) == drop_quotes(v@, b as int, n as int),
        decreases e,
    {
        e = e - 1;
    }
    text::string_of(&v, b, e)
}

/// The argument of a request to cancel.
pub fn cancel_arg(body: &str) -> (out: String)
    ensures
        out@ == cancel_argument(body@),
{
    let v = text::chars_of(body);
    proof {
        text::lemma_scan(v@, 0);
    }
    let mut p: usize = 0;
    while p < v.len() && !text::char_is_space(v[p])
        invariant
            p <= v@.len(),
            text::word_end(v@, p as int) == text::word_end(v@, 0),
        decreases v@.len() - p,
    {
        p = p + 1;
    }
    let rest = if p < v.len() {
        let r = text::string_of(&v, p + 1, v.len());
        assert(r@ =~= body@.skip(p as int + 1));
        r
    } else {
        text::owned("")
    };
    unquote(text::trim(rest.as_str()).as_str())
}

/// The entries at another time, in order.
pub open spec fn entries_not_at(s: Seq<ScheduledOnceView>, time: Seq<char>) -> Seq<
    ScheduledOnceView,
>
    decreases s.len(),
{
    if s.len() == 0 {
        Seq::empty()
    } else if s.last().game_time == time {
        entries_not_at(s.drop_last(), time)
    } else {
        entries_not_at(s.drop_last(), time).push(s.last())
    }
}

proof fn lemma_fewer_entries(s: Seq<ScheduledOnceView>, time: Seq<char>)
    ensures
        entries_not_at(s, time).len() <= s.len(),
    decreases s.len(),
{
    if s.len() > 0 {
        lemma_fewer_entries(s.drop_last(), time);
    }
}

proof fn lemma_entries_filtered(s: Seq<ScheduledOnceView>, time: Seq<char>)
    ensures
        entries_not_at(s, time) == s.filter(|e: ScheduledOnceView| e.game_time != time),
    decreases s.len(),
{
    reveal(Seq::filter);
    if s.len() > 0 {
        lemma_entries_filtered(s.drop_last(), time);
    }
}

/// The games left and the answer after a request to cancel the games at a time.
pub open spec fn cancel_outcome(arg: Seq<char>, s: Seq<ScheduledOnceView>) -> (
    Seq<ScheduledOnceView>,
    Seq<char>,
) {
    match config::clock_time(arg) {
        None => (
            s,
            scheduling::quoting("❌ Invalid time \""@, arg, "\" · use HH:MM (e.g. 15:00)"@),
        ),
        Some((h, m)) => {
            let time = clock::hour_minute(h, m);
            let left = entries_not_at(s, time);
            let removed = (s.len() - left.len()) as nat;
            (
                left,
                if removed == 0 {
                    "⚠️ No scheduled game found for "@ + time + "."@
                } else {
                    "✅ Cancelled "@ + text::decimal(removed) + " scheduled game(s) at "@ + time
                        + "."@
                },
            )
        },
    }
}

/// Takes the one-time games at a time off the list and returns the answer.
pub fn cancel_scheduled(state: &mut State, arg: &str) -> (out: String)
    ensures
        scheduling::only_once_changed(*old(state), *final(state)),
        (scheduling::once_views(final(state).scheduled_once@), out@) == cancel_outcome(
            arg@,
            scheduling::once_views(old(state).scheduled_once@),
        ),
        config::clock_time(arg@) is None ==> final(state).scheduled_once@
            == old(state).scheduled_once@ && out@ == "❌ Invalid time \""@ + arg@
            + "\" · use HH:MM (e.g. 15:00)"@,
        config::clock_time(arg@) matches Some((hour, minute)) ==> {
            let time = clock::hour_minute(hour, minute);
            let before = scheduling::once_views(old(state).scheduled_once@);
            let after = scheduling::once_views(final(state).scheduled_once@);
            &&& after == before.filter(|e: ScheduledOnceView| e.game_time != time)
            &&& before.len() == after.len() ==> out@ == "⚠️ No scheduled game found for "@ + time
                + "."@
            &&& before.len() > after.len() ==> out@ == "✅ Cancelled "@ + text::decimal(
                (before.len() - after.len()) as nat,
            ) + " scheduled game(s) at "@ + time + "."@
        },
{
    let (h, m) = match ScheduleConfig::parse_game_time(arg) {
        Some(t) => t,
        None => {
            let mut out = text::owned("❌ Invalid time \"");
            out.append(arg);
            out.append("\" · use HH:MM (e.g. 15:00)");
            return out;
        },
    };
    let time = clock::hour_minute_text(h, m);
    let mut kept: Vec<ScheduledOnce> = Vec::new();
    let ghost all = scheduling::once_views(state.scheduled_once@);
    let before: usize = state.scheduled_once.len();
    let mut i: usize = 0;
    assert(all.take(0) =~= Seq::empty());
    assert(scheduling::once_views(kept@) =~= Seq::empty());
    while i < state.scheduled_once.len()
        invariant
            i <= state.scheduled_once@.len(),
            *state == *old(state),
            before == all.len(),
            all == scheduling::once_views(state.scheduled_once@),
            scheduling::once_views(kept@) == entries_not_at(all.take(i as int), time@),
        decreases state.scheduled_once@.len() - i,
    {
        assert(all.take(i as int + 1).drop_last() =~= all.take(i as int));
        assert(all[i as int] == state.scheduled_once@[i as int]@);
        if !text::same_text(state.scheduled_once[i].game_time.as_str(), time.as_str()) {
            let ghost had = scheduling::once_views(kept@);
            kept.push(state.scheduled_once[i].clone());
            assert(scheduling::once_views(kept@) =~= had.push(all[i as int]));
        }
        i = i + 1;
    }
    assert(all.take(all.len() as int) =~= all);
    proof {
        lemma_fewer_entries(all, time@);
        lemma_entries_filtered(all, time@);
        assert(scheduling::once_views(kept@).len() == kept@.len());
    }
    let removed: usize = before - kept.len();
    state.scheduled_once = kept;
    if removed == 0 {
        let mut out = text::owned("⚠️ No scheduled game found for ");
        out.append(time.as_str());
        out.append(".");
        out
    } else {
        let mut out = text::owned("✅ Cancelled ");
        text::push_decimal(&mut out, removed as u128);
        out.append(" scheduled game(s) at ");
        out.append(time.as_str());
        out.append(".");
        out
    }
}

/// A game that was planned at a time is gone once the games at that time are
/// cancelled, under any notation of the time.
pub proof fn law_planned_games_can_be_cancelled(
    s: Seq<ScheduledOnceView>,
    e: ScheduledOnceView,
    h: nat,
    m: nat,
    arg: Seq<char>,
)
    requires
        e.game_time == clock::hour_minute(h, m),
        config::clock_time(arg) == Some((h, m)),
    ensures
        !cancel_outcome(arg, s.push(e)).0.contains(e),
{
    lemma_none_left(s.push(e), e.game_time);
    let left = cancel_outcome(arg, s.push(e)).0;
    if left.contains(e) {
        let i = choose|i: int| 0 <= i < left.len() && left[i] == e;
        assert(left[i].game_time != e.game_time);
    }
}

proof fn lemma_none_left(s: Seq<ScheduledOnceView>, time: Seq<char>)
    ensures
        forall|i: int|
            0 <= i < entries_not_at(s, time).len() ==> (#[trigger] entries_not_at(s, time)[i]).game_time
                != time,
    decreases s.len(),
{
    if s.len() > 0 {
        lemma_none_left(s.drop_last(), time);
        let rest = entries_not_at(s.drop_last(), time);
        assert forall|i: int| 0 <= i < entries_not_at(s, time).len() implies (
        #[trigger] entries_not_at(s, time)[i]).game_time != time by {
            if i < rest.len() {
                assert(entries_not_at(s, time)[i] == rest[i]);
            }
        }
    }
}

/// Forgets the round in progress and the open join window. Returns the round
/// that is to be closed in the database, and the answer.
pub fn cancel_round(state: &mut State, had_game: bool) -> (r: (Option<i64>, &'static str))
    ensures
        final(state).active_round is None,
        final(state).pending_join is None,
        final(state).cached_guesses == old(state).cached_guesses,
        final(state).created_at == old(state).created_at,
        final(state).last_game_dates == old(state).last_game_dates,
        final(state).scheduled_once == old(state).scheduled_once,
        final(state).user_langs == old(state).user_langs,
        final(state).schedule_overrides == old(state).schedule_overrides,
        r.0 == (match old(state).active_round {
            Some(ar) => Some(ar.round_id),
            None => None,
        }),
        r.1@ == (if had_game || old(state).active_round is Some || old(state).pending_join is Some {
            "🛑 Round cancelled."@
        } else {
            "⚠️ No active round to cancel."@
        }),
{
    let round_id: Option<i64> = match &state.active_round {
        Some(ar) => Some(ar.round_id),
        None => None,
    };
    let joining: bool = state.pending_join.is_some();
    state.active_round = None;
    state.pending_join = None;
    if had_game || round_id.is_some() || joining {
        (round_id, "🛑 Round cancelled.")
    } else {
        (round_id, "⚠️ No active round to cancel.")
    }
}

// ── Languages ────────────────────────────────────────────────────────────────

/// The language that an argument names: a flag, or a code in any case.
pub open spec fn language_named(arg: Seq<char>) -> Option<Seq<char>> {
    if lang::flag_language(arg) is Some {
        lang::flag_language(arg)
    } else if lang::is_language(lowercase(arg)) {
        Some(lowercase(arg))
    } else {
        None
    }
}

/// The argument of a command: its second word, empty where there is none.
pub open spec fn second_word(s: Seq<char>) -> Seq<char> {
    let ws = text::words(s);
    if ws.len() < 2 {
        ""@
    } else {
        ws[1]
    }
}

/// The second word of a text.
pub fn argument(body: &str) -> (out: String)
    ensures
        out@ == second_word(body@),
{
    let words = text::split_words(body);
    let ghost ws = text::words(body@);
    assert(ws.len() == words@.len());
    if words.len() < 2 {
        text::owned("")
    } else {
        assert(ws[1] == words@[1]@);
        words[1].clone()
    }
}

/// The first word of a message names the command and the second is its argument.
pub proof fn law_words_of_a_command(ws: Seq<Seq<char>>)
    requires
        forall|i: int| 0 <= i < ws.len() ==> (#[trigger] ws[i]).len() > 0,
        forall|i: int, k: int|
            0 <= i < ws.len() && 0 <= k < ws[i].len() ==> !text::is_space(#[trigger] ws[i][k]),
    ensures
        ws.len() >= 1 ==> first_word(text::joined(ws, " "@)) == ws[0],
        ws.len() >= 2 ==> second_word(text::joined(ws, " "@)) == ws[1],
{
    text::law_joined_words_are_split(ws);
}

/// The language that is set by a request and the answer to it.
pub open spec fn language_outcome(arg: Seq<char>, current: Seq<char>) -> (
    Option<Seq<char>>,
    Seq<char>,
) {
    if arg.len() == 0 {
        (
            None,
            "Your language: **"@ + current + "** ("@ + lang::language_name(current)
                + ")\nChange with: !lang <flag>  or  !lang <code>  (e.g. !lang 🇩🇪  or  !lang de)"@,
        )
    } else {
        match language_named(arg) {
            None => (
                None,
                "Unknown language «"@ + arg
                    + "»\nUse !lang <flag>  or  !lang <code>  (e.g. !lang 🇩🇪  or  !lang de)"@,
            ),
            Some(code) => (
                Some(code),
                "Language set to **"@ + code + "** ("@ + lang::language_name(code)
                    + ") · your guess locations will now appear in "@ + lang::language_name(code),
            ),
        }
    }
}

fn read_language(arg: &str) -> (r: Option<&'static str>)
    ensures
        r is Some == language_named(arg@) is Some,
        r matches Some(c) ==> Some(c@) == language_named(arg@),
        lang::flag_language(arg@) is Some ==> r is Some && Some(r->0@) == lang::flag_language(arg@),
        lang::flag_language(arg@) is None && lang::is_language(lowercase(arg@)) ==> r is Some
            && r->0@ == lowercase(arg@),
        lang::flag_language(arg@) is None && !lang::is_language(lowercase(arg@)) ==> r is None,
{
    match lang::flag_to_lang(arg) {
        Some(c) => Some(c),
        None => lang::text_code_to_lang(arg.to_lowercase().as_str()),
    }
}

/// Shows or sets the language of a player and returns the answer.
pub fn set_language(state: &mut State, sender: &str, body: &str) -> (out: String)
    ensures
        out@ == language_outcome(second_word(body@), old(state).language(sender@)).1,
        second_word(body@).len() == 0 ==> *final(state) == *old(state) && out@
            == "Your language: **"@ + old(state).language(sender@) + "** ("@ + lang::language_name(
            old(state).language(sender@),
        ) + ")\nChange with: !lang <flag>  or  !lang <code>  (e.g. !lang 🇩🇪  or  !lang de)"@,
        second_word(body@).len() > 0 ==> match language_named(second_word(body@)) {
            None => *final(state) == *old(state) && out@ == "Unknown language «"@ + second_word(
                body@,
            ) + "»\nUse !lang <flag>  or  !lang <code>  (e.g. !lang 🇩🇪  or  !lang de)"@,
            Some(code) => final(state).language(sender@) == code && out@ == "Language set to **"@
                + code + "** ("@ + lang::language_name(code)
                + ") · your guess locations will now appear in "@ + lang::language_name(code),
        },
        match language_outcome(second_word(body@), old(state).language(sender@)).0 {
            None => *final(state) == *old(state),
            Some(code) => {
                &&& final(state).language(sender@) == code
                &&& forall|u: Seq<char>|
                    u != sender@ ==> #[trigger] final(state).language(u) == old(state).language(u)
                &&& final(state).cached_guesses == old(state).cached_guesses
                &&& final(state).created_at == old(state).created_at
                &&& final(state).last_game_dates == old(state).last_game_dates
                &&& final(state).pending_join == old(state).pending_join
                &&& final(state).scheduled_once == old(state).scheduled_once
                &&& final(state).schedule_overrides == old(state).schedule_overrides
                &&& final(state).active_round == old(state).active_round
            },
        },
{
    let arg = argument(body);
    if arg.as_str().is_empty() {
        let current = state.language_of(sender);
        let mut out = text::owned("Your language: **");
        out.append(current.as_str());
        out.append("** (");
        out.append(lang::lang_label(current.as_str()));
        out.append(
            ")\nChange with: !lang <flag>  or  !lang <code>  (e.g. !lang 🇩🇪  or  !lang de)",
        );
        return out;
    }
    match read_language(arg.as_str()) {
        None => {
            let mut out = text::owned("Unknown language «");
            out.append(arg.as_str());
            out.append(
                "»\nUse !lang <flag>  or  !lang <code>  (e.g. !lang 🇩🇪  or  !lang de)",
            );
            out
        },
        Some(code) => {
            state.user_langs.insert(text::owned(sender), text::owned(code));
            let mut out = text::owned("Language set to **");
            out.append(code);
            out.append("** (");
            out.append(lang::lang_label(code));
            out.append(") · your guess locations will now appear in ");
            out.append(lang::lang_label(code));
            out
        },
    }
}

// ── Information ──────────────────────────────────────────────────────────────

/// How and when the game is played.
pub open spec fn info_text(s: ScheduleConfig) -> Seq<char> {
    "🌍 **GeoGuessr**\n🕐 "@ + (if s.game_times@.len() == 0 {
        "not scheduled"@
    } else {
        text::joined(text::views(s.game_times@), ", "@)
    }) + " ("@ + s.timezone@ + ")"@ + (if s.reminder_before_secs > 0 {
        "\n⏰ Join window "@ + clock::duration_text(s.reminder_before_secs as nat)
            + " early · react with "@ + s.join_emoji@ + " to play"@
    } else {
        ""@
    }) + "\n📍 "@ + scheduling::guesses_text(s.guesses_per_round as nat) + " · "@
        + clock::duration_text(s.answer_timeout_secs as nat) + (if s.photos_per_location > 1 {
        "\n📸 "@ + text::decimal(s.photos_per_location as nat) + " photos per guess"@
    } else {
        ""@
    })
        + "\n\n🗺️ Free guess · type a location in private chat\nCity, country, full address, or lat,lon · scored by distance"@
}

/// How and when the game is played.
pub fn game_info(s: &ScheduleConfig) -> (out: String)
    ensures
        out@ == info_text(*s),
        out@ == "🌍 **GeoGuessr**\n🕐 "@ + (if s.game_times@.len() == 0 {
            "not scheduled"@
        } else {
            text::joined(text::views(s.game_times@), ", "@)
        }) + " ("@ + s.timezone@ + ")"@ + (if s.reminder_before_secs > 0 {
            "\n⏰ Join window "@ + clock::duration_text(s.reminder_before_secs as nat)
                + " early · react with "@ + s.join_emoji@ + " to play"@
        } else {
            ""@
        }) + "\n📍 "@ + scheduling::guesses_text(s.guesses_per_round as nat) + " · "@
            + clock::duration_text(s.answer_timeout_secs as nat) + (if s.photos_per_location > 1 {
            "\n📸 "@ + text::decimal(s.photos_per_location as nat) + " photos per guess"@
        } else {
            ""@
        })
            + "\n\n🗺️ Free guess · type a location in private chat\nCity, country, full address, or lat,lon · scored by distance"@,
        s.game_times@.len() == 0 ==> text::occurs_at(
            out@,
            "🌍 **GeoGuessr**\n🕐 "@ + "not scheduled"@ + " ("@ + s.timezone@ + ")"@,
            0,
        ),
        s.game_times@.len() > 0 ==> text::occurs_at(
            out@,
            "🌍 **GeoGuessr**\n🕐 "@ + text::joined(text::views(s.game_times@), ", "@) + " ("@
                + s.timezone@ + ")"@,
            0,
        ),
        s.reminder_before_secs > 0 ==> text::contains_text(
            out@,
            "\n⏰ Join window "@ + clock::duration_text(s.reminder_before_secs as nat)
                + " early · react with "@ + s.join_emoji@ + " to play"@,
        ),
        s.photos_per_location > 1 ==> text::contains_text(
            out@,
            "\n📸 "@ + text::decimal(s.photos_per_location as nat) + " photos per guess"@,
        ),
{
    let mut out = text::owned("🌍 **GeoGuessr**\n🕐 ");
    if s.game_times.len() == 0 {
        out.append("not scheduled");
    } else {
        out.append(text::join(&s.game_times, ", ").as_str());
    }
    out.append(" (");
    out.append(s.timezone.as_str());
    out.append(")");
    let ghost a = out@;
    if s.reminder_before_secs > 0 {
        out.append("\n⏰ Join window ");
        out.append(clock::format_duration(s.reminder_before_secs).as_str());
        out.append(" early · react with ");
        out.append(s.join_emoji.as_str());
        out.append(" to play");
        assert(out@ =~= a + ("\n⏰ Join window "@ + clock::duration_text(
            s.reminder_before_secs as nat,
        ) + " early · react with "@ + s.join_emoji@ + " to play"@));
    } else {
        out.append("");
    }
    let ghost a2 = out@;
    out.append("\n📍 ");
    scheduling::push_guesses(&mut out, s.guesses_per_round);
    out.append(" · ");
    out.append(clock::format_duration(s.answer_timeout_secs).as_str());
    let ghost b = out@;
    if s.photos_per_location > 1 {
        out.append("\n📸 ");
        text::push_decimal(&mut out, s.photos_per_location as u128);
        out.append(" photos per guess");
        assert(out@ =~= b + ("\n📸 "@ + text::decimal(s.photos_per_location as nat)
            + " photos per guess"@));
    } else {
        out.append("");
    }
    out.append(
        "\n\n🗺️ Free guess · type a location in private chat\nCity, country, full address, or lat,lon · scored by distance",
    );
    proof {
        assert(out@.subrange(0, a.len() as int) =~= a);
        if s.reminder_before_secs > 0 {
            let part = "\n⏰ Join window "@ + clock::duration_text(s.reminder_before_secs as nat)
                + " early · react with "@ + s.join_emoji@ + " to play"@;
            assert(out@.subrange(a.len() as int, a2.len() as int) =~= part);
            assert(text::occurs_at(out@, part, a.len() as int));
        }
        if s.photos_per_location > 1 {
            let part = "\n📸 "@ + text::decimal(s.photos_per_location as nat)
                + " photos per guess"@;
            assert(out@.subrange(b.len() as int, (b.len() + part.len()) as int) =~= part);
            assert(text::occurs_at(out@, part, b.len() as int));
        }
    }
    out
}

/// The list of commands.
pub fn help_text() -> (out: String)
    ensures
        out@
            == "🌍 **GeoGuessr** commands:\n\n  !gameinfo          · schedule & how to play\n  !scores            · all-time leaderboard\n  !scores90          · last 90 days leaderboard\n  !mystats           · your rank and stats\n  !countries         · country accuracy chart\n  !fastest           · speed leaderboard\n  !lang <flag or code>   · set your language (e.g. !lang 🇩🇪  or  !lang de)\n  !help              · show this help\n\n**Admin:**\n  !startgeo                                  · start a round immediately (no join phase)\n  !cancelgeo                                 · abort current round\n  !cancelgeo HH:MM                           · cancel a scheduled game\n  !schedulegeo HH:MM [reminder=N] [timeout=N] [guesses=N]\n                                             · schedule a game (today if possible)\n  !setschedule [guesses=N] [photos=N] [timeout=N]  · override daily schedule defaults\n  !setschedule reset                         · clear overrides, use config values\n  !prefetch                                  · fill the image cache\n  !resetstats confirm                        · wipe all history"@,
{
    text::owned(
        "🌍 **GeoGuessr** commands:\n\n  !gameinfo          · schedule & how to play\n  !scores            · all-time leaderboard\n  !scores90          · last 90 days leaderboard\n  !mystats           · your rank and stats\n  !countries         · country accuracy chart\n  !fastest           · speed leaderboard\n  !lang <flag or code>   · set your language (e.g. !lang 🇩🇪  or  !lang de)\n  !help              · show this help\n\n**Admin:**\n  !startgeo                                  · start a round immediately (no join phase)\n  !cancelgeo                                 · abort current round\n  !cancelgeo HH:MM                           · cancel a scheduled game\n  !schedulegeo HH:MM [reminder=N] [timeout=N] [guesses=N]\n                                             · schedule a game (today if possible)\n  !setschedule [guesses=N] [photos=N] [timeout=N]  · override daily schedule defaults\n  !setschedule reset                         · clear overrides, use config values\n  !prefetch                                  · fill the image cache\n  !resetstats confirm                        · wipe all history",
    )
}

/// What is said after the cache was filled.
pub fn prefetch_message(before: usize, after: usize) -> (out: String)
    ensures
        out@ == "✅ Image cache: "@ + text::decimal(before as nat) + " → "@ + text::decimal(
            after as nat,
        ),
{
    let mut out = text::owned("✅ Image cache: ");
    text::push_decimal(&mut out, before as u128);
    out.append(" → ");
    text::push_decimal(&mut out, after as u128);
    out
}

/// Whether a request to wipe all history is confirmed.
pub fn reset_confirmed(body: &str) -> (r: bool)
    ensures
        r == (second_word(body@) == "confirm"@),
{
    text::same_text(argument(body).as_str(), "confirm")
}

} // verus!
