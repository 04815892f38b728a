//! A round: its parameters, the join window, the images it uses, the order in
//! which they are played and what is saved on the way.

use std::collections::VecDeque;

use vstd::prelude::*;

use crate::bits::F64Bits;
use crate::clock;
use crate::config::ScheduleConfig;
use crate::lang;
use crate::sort;
use crate::sources;
use crate::sources::GeoImage;
use crate::sources::GeoImageView;
use crate::state::ActiveDmParticipant;
use crate::state::ActiveRoundState;
use crate::state::DayNumber;
use crate::state::ScheduleOverrides;
use crate::state::State;
use crate::state::UtcInstant;
use crate::str_map::StrMap;
use crate::text;

verus! {

// ── Parameters ───────────────────────────────────────────────────────────────

/// Optional overrides for a single round.
#[derive(Clone, Copy, Debug, PartialEq, Eq, Structural)]
pub struct GameOverrides {
    /// How long before game time the join message is posted (seconds).
    pub reminder_before_secs: Option<u64>,
    /// How long players have to answer (seconds).
    pub answer_timeout_secs: Option<u64>,
    /// How many guesses (locations) per round.
    pub guesses_per_round: Option<u32>,
}

/// The values that a round is played with.
#[derive(Clone, Copy, Debug, PartialEq, Eq, Structural)]
pub struct RoundParams {
    pub guesses: u32,
    pub reminder_secs: u64,
    pub answer_timeout_secs: u64,
    /// Whether players are asked to join first.
    pub join_phase: bool,
}

/// The first value that is present.
pub open spec fn first_of<T>(a: Option<T>, b: Option<T>, c: T) -> T {
    match a {
        Some(x) => x,
        None => match b {
            Some(y) => y,
            None => c,
        },
    }
}

/// Guesses per round: the override of the recurring schedule beats the configuration.
pub fn effective_guesses_per_round(schedule: &ScheduleConfig, over: &ScheduleOverrides) -> (r: u32)
    ensures
        r == first_of(None, over.guesses_per_round, schedule.guesses_per_round),
        over.guesses_per_round matches Some(n) ==> r == n,
        over.guesses_per_round is None ==> r == schedule.guesses_per_round,
{
    match over.guesses_per_round {
        Some(n) => n,
        None => schedule.guesses_per_round,
    }
}

/// Answer timeout: the override of the recurring schedule beats the configuration.
pub fn effective_answer_timeout(schedule: &ScheduleConfig, over: &ScheduleOverrides) -> (r: u64)
    ensures
        r == first_of(None, over.answer_timeout_secs, schedule.answer_timeout_secs),
        over.answer_timeout_secs matches Some(n) ==> r == n,
        over.answer_timeout_secs is None ==> r == schedule.answer_timeout_secs,
{
    match over.answer_timeout_secs {
        Some(n) => n,
        None => schedule.answer_timeout_secs,
    }
}

/// Photos per location: the override of the recurring schedule beats the configuration.
pub fn effective_photos_per_location(schedule: &ScheduleConfig, over: &ScheduleOverrides) -> (r:
    usize)
    ensures
        r == first_of(None, over.photos_per_location, schedule.photos_per_location),
        over.photos_per_location matches Some(n) ==> r == n,
        over.photos_per_location is None ==> r == schedule.photos_per_location,
{
    match over.photos_per_location {
        Some(n) => n,
        None => schedule.photos_per_location,
    }
}

/// What a round is played with: overrides of the single game come first, then
/// those of the recurring schedule, then the configuration. A manual round has
/// no join phase, nor has one whose reminder is 0 seconds.
pub open spec fn params_of(
    manual: bool,
    game: GameOverrides,
    over: ScheduleOverrides,
    schedule: ScheduleConfig,
) -> RoundParams {
    let reminder = first_of(game.reminder_before_secs, None, schedule.reminder_before_secs);
    RoundParams {
        guesses: first_of(
            game.guesses_per_round,
            over.guesses_per_round,
            schedule.guesses_per_round,
        ),
        reminder_secs: reminder,
        answer_timeout_secs: first_of(
            game.answer_timeout_secs,
            over.answer_timeout_secs,
            schedule.answer_timeout_secs,
        ),
        join_phase: !manual && reminder > 0,
    }
}

/// No overrides.
pub open spec fn no_overrides() -> GameOverrides {
    GameOverrides {
        reminder_before_secs: None,
        answer_timeout_secs: None,
        guesses_per_round: None,
    }
}

/// Settles what a round is played with.
pub fn round_params(
    manual: bool,
    overrides: &Option<GameOverrides>,
    over: &ScheduleOverrides,
    schedule: &ScheduleConfig,
) -> (r: RoundParams)
    ensures
        r == params_of(
            manual,
            match *overrides {
                Some(g) => g,
                None => no_overrides(),
            },
            *over,
            *schedule,
        ),
        r.join_phase == (!manual && r.reminder_secs > 0),
        *overrides matches Some(g) ==> {
            &&& g.reminder_before_secs matches Some(n) ==> r.reminder_secs == n
            &&& g.answer_timeout_secs matches Some(n) ==> r.answer_timeout_secs == n
            &&& g.guesses_per_round matches Some(n) ==> r.guesses == n
        },
        (*overrides is None || overrides->0.reminder_before_secs is None) ==> r.reminder_secs
            == schedule.reminder_before_secs,
        (*overrides is None || overrides->0.answer_timeout_secs is None) ==> (
        over.answer_timeout_secs matches Some(n) ==> r.answer_timeout_secs == n),
        (*overrides is None || overrides->0.answer_timeout_secs is None)
            && over.answer_timeout_secs is None ==> r.answer_timeout_secs
            == schedule.answer_timeout_secs,
        (*overrides is None || overrides->0.guesses_per_round is None) ==> (
        over.guesses_per_round matches Some(n) ==> r.guesses == n),
        (*overrides is None || overrides->0.guesses_per_round is None) && over.guesses_per_round is None
            ==> r.guesses == schedule.guesses_per_round,
{
    let game: GameOverrides = match overrides {
        Some(g) => *g,
        None => GameOverrides {
            reminder_before_secs: None,
            answer_timeout_secs: None,
            guesses_per_round: None,
        },
    };
    let reminder_secs: u64 = match game.reminder_before_secs {
        Some(s) => s,
        None => schedule.reminder_before_secs,
    };
    let guesses: u32 = match game.guesses_per_round {
        Some(n) => n,
        None => effective_guesses_per_round(schedule, over),
    };
    let answer_timeout_secs: u64 = match game.answer_timeout_secs {
        Some(s) => s,
        None => effective_answer_timeout(schedule, over),
    };
    RoundParams { guesses, reminder_secs, answer_timeout_secs, join_phase: !manual && reminder_secs > 0 }
}

/// What started a round, as recorded in the database.
pub fn triggered_by(manual: bool) -> (r: &'static str)
    ensures
        r@ == (if manual { "manual"@ } else { "scheduler"@ }),
{
    if manual {
        "manual"
    } else {
        "scheduler"
    }
}

// ── Join window ──────────────────────────────────────────────────────────────

/// The flags that the bot offers on the join message.
pub open spec fn join_flags() -> Seq<Seq<char>> {
    seq!["🇬🇧"@, "🇩🇪"@, "🇺🇦"@, "🇫🇷"@]
}

/// The flags that the bot offers on the join message.
pub fn join_reaction_flags() -> (r: Vec<&'static str>)
    ensures
        r@.map_values(|s: &'static str| s@) == join_flags(),
        r@.len() == 4,
        r@[0]@ == "🇬🇧"@ && r@[1]@ == "🇩🇪"@ && r@[2]@ == "🇺🇦"@ && r@[3]@ == "🇫🇷"@,
{
    let r: Vec<&'static str> = vec!["🇬🇧", "🇩🇪", "🇺🇦", "🇫🇷"];
    assert(r@.map_values(|s: &'static str| s@) =~= join_flags());
    r
}

/// The join message.
pub open spec fn join_text(reminder_secs: nat) -> Seq<char> {
    "🌍 GeoGuessr starts in "@ + clock::duration_text(reminder_secs)
        + "! @room\nReact with your flag to join and set the map language:\n"@ + text::joined(
        join_flags(),
        " "@,
    )
}

/// The message that opens the join window.
pub fn join_message(reminder_secs: u64) -> (out: String)
    ensures
        out@ == join_text(reminder_secs as nat),
        text::occurs_at(
            out@,
            "🌍 GeoGuessr starts in "@ + clock::duration_text(reminder_secs as nat)
                + "! @room\nReact with your flag to join and set the map language:\n"@,
            0,
        ),
        text::contains_text(out@, "🇬🇧"@) && text::contains_text(out@, "🇩🇪"@)
            && text::contains_text(out@, "🇺🇦"@) && text::contains_text(out@, "🇫🇷"@),
{
    let mut out = text::owned("🌍 GeoGuessr starts in ");
    out.append(clock::format_duration(reminder_secs).as_str());
    out.append("! @room\nReact with your flag to join and set the map language:\n");
    let flags: Vec<String> = vec![
        text::owned("🇬🇧"),
        text::owned("🇩🇪"),
        text::owned("🇺🇦"),
        text::owned("🇫🇷"),
    ];
    assert(text::views(flags@) =~= join_flags());
    let ghost head = out@;
    out.append(text::join(&flags, " ").as_str());
    proof {
        let line = text::joined(join_flags(), " "@);
        assert(out@.subrange(0, head.len() as int) =~= head);
        text::lemma_joined_contains(join_flags(), " "@, 0);
        text::lemma_joined_contains(join_flags(), " "@, 1);
        text::lemma_joined_contains(join_flags(), " "@, 2);
        text::lemma_joined_contains(join_flags(), " "@, 3);
        text::lemma_contains_in_concat(head, line, "🇬🇧"@);
        text::lemma_contains_in_concat(head, line, "🇩🇪"@);
        text::lemma_contains_in_concat(head, line, "🇺🇦"@);
        text::lemma_contains_in_concat(head, line, "🇫🇷"@);
    }
    out
}

/// Every flag that the bot offers counts as joining.
pub proof fn law_offered_flags_join(i: int)
    requires
        0 <= i < join_flags().len(),
    ensures
        lang::flag_language(join_flags()[i]) is Some,
{
}

/// Whether a reaction makes its sender a participant: the flag of any known
/// language does, unless the bot itself sent it.
pub open spec fn joins(key: Seq<char>, sender: Seq<char>, bot: Option<Seq<char>>) -> bool {
    bot != Some(sender) && lang::flag_language(key) is Some
}

/// Adds the sender of a reaction to the participants where the reaction joins.
pub fn add_join_reaction(
    participants: &mut Vec<String>,
    key: &str,
    sender: &str,
    bot: Option<&str>,
)
    ensures
        ({
            let b = text::opt_text(bot);
            let before = text::views(old(participants)@);
            text::views(final(participants)@) == if joins(key@, sender@, b) && !before.contains(
                sender@,
            ) {
                before.push(sender@)
            } else {
                before
            }
        }),
        (bot matches Some(b) && b@ == sender@) ==> text::views(final(participants)@) == text::views(
            old(participants)@,
        ),
        lang::flag_language(key@) is None ==> text::views(final(participants)@) == text::views(
            old(participants)@,
        ),
        (bot is None || bot->0@ != sender@) && lang::flag_language(key@) is Some ==> text::views(
            final(participants)@,
        ).contains(sender@),
        text::views(old(participants)@).no_duplicates() ==> text::views(
            final(participants)@,
        ).no_duplicates(),
{
    let ghost all = text::views(participants@);
    assert(all.push(sender@)[all.len() as int] == sender@);
    if let Some(b) = bot {
        if text::same_text(b, sender) {
            return ;
        }
    }
    if lang::flag_to_lang(key).is_none() {
        return ;
    }
    if !has_id(participants, sender) {
        let ghost before = text::views(participants@);
        participants.push(text::owned(sender));
        assert(text::views(participants@) =~= before.push(sender@));
    }
}

/// Whether a user is in a list.
pub fn has_id(ids: &Vec<String>, id: &str) -> (r: bool)
    ensures
        r == text::views(ids@).contains(id@),
{
    let mut i: usize = 0;
    while i < ids.len()
        invariant
            i <= ids@.len(),
            forall|k: int| 0 <= k < i ==> (#[trigger] ids@[k])@ != id@,
        decreases ids@.len() - i,
    {
        if text::same_text(ids[i].as_str(), id) {
            assert(text::views(ids@)[i as int] == id@);
            return true;
        }
        i = i + 1;
    }
    assert forall|k: int| 0 <= k < ids@.len() implies text::views(ids@)[k] != id@ by {
        assert(ids@[k]@ != id@);
    }
    false
}

/// The message that the game is starting.
pub open spec fn starting_text(ids: Seq<Seq<char>>) -> Seq<char> {
    "🌍 GeoGuessr starting now! "@ + text::decimal(ids.len()) + " player"@ + (if ids.len() == 1 {
        ""@
    } else {
        "s"@
    }) + ": "@ + text::joined(ids, ", "@)
}

/// The message that the game is starting with these players.
pub fn starting_message(ids: &Vec<String>) -> (out: String)
    ensures
        out@ == starting_text(text::views(ids@)),
        out@ == "🌍 GeoGuessr starting now! "@ + text::decimal(ids@.len()) + (if ids@.len() == 1 {
            " player: "@
        } else {
            " players: "@
        }) + text::joined(text::views(ids@), ", "@),
{
    let mut out = text::owned("🌍 GeoGuessr starting now! ");
    text::push_decimal(&mut out, ids.len() as u128);
    out.append(" player");
    out.append(
        if ids.len() == 1 {
            ""
        } else {
            "s"
        },
    );
    out.append(": ");
    out.append(text::join(ids, ", ").as_str());
    proof {
        reveal_strlit(" player: ");
        reveal_strlit(" players: ");
        reveal_strlit(" player");
        reveal_strlit("s");
        reveal_strlit("");
        reveal_strlit(": ");
        assert(" player"@ + ""@ + ": "@ =~= " player: "@);
        assert(" player"@ + "s"@ + ": "@ =~= " players: "@);
        let tail = text::joined(text::views(ids@), ", "@);
        let head = "🌍 GeoGuessr starting now! "@ + text::decimal(ids@.len());
        assert(out@ =~= head + (if ids@.len() == 1 {
            " player"@ + ""@ + ": "@
        } else {
            " player"@ + "s"@ + ": "@
        }) + tail);
    }
    out
}

/// Those of the saved players whose identifiers are valid, in their order.
pub fn valid_players(players: &StrMap<ActiveDmParticipant>) -> (r: Vec<String>)
    ensures
        text::views(r@) == players.keys().filter(|s: Seq<char>| crate::format::valid_user_id(s)),
{
    let n: usize = players.len();
    let mut r: Vec<String> = Vec::new();
    let mut i: usize = 0;
    let ghost keys = players.keys();
    let ghost valid = |s: Seq<char>| crate::format::valid_user_id(s);
    assert(text::views(r@) =~= keys.take(0).filter(valid)) by {
        reveal(Seq::filter);
    }
    while i < n
        invariant
            i <= n,
            n == keys.len(),
            keys == players.keys(),
            valid == (|s: Seq<char>| crate::format::valid_user_id(s)),
            text::views(r@) == keys.take(i as int).filter(valid),
        decreases n - i,
    {
        let ghost before = text::views(r@);
        let id = players.entry(i).0;
        if crate::format::parses_as_user_id(id.as_str()) {
            r.push(id.clone());
            assert(text::views(r@) =~= before.push(keys[i as int]));
        }
        proof {
            reveal(Seq::filter);
            assert(keys.take(i as int + 1).drop_last() =~= keys.take(i as int));
        }
        i = i + 1;
    }
    assert(keys.take(n as int) =~= keys);
    r
}

/// The participants in the order of their identifiers.
pub fn sort_participants(ids: Vec<String>) -> (r: Vec<String>)
    ensures
        sort::is_stable_sort(ids@, r@),
        r@.to_multiset() == ids@.to_multiset(),
        forall|i: int, j: int|
            #![trigger r@[i], r@[j]]
            0 <= i <= j < r@.len() ==> text::text_le(r@[i]@, r@[j]@),
{
    let ghost input = ids@;
    let r = sort::sort_stable(ids);
    proof {
        assert(sort::all_comparable(input));
        assert forall|i: int, j: int|
            #![trigger r@[i], r@[j]]
            0 <= i <= j < r@.len() implies text::text_le(r@[i]@, r@[j]@) by {
            assert(sort::Ranked::before_eq(&r@[i], &r@[j]));
        }
    }
    r
}

pub fn nobody_joined_message() -> (r: &'static str)
    ensures
        r@ == "😴 Nobody joined · skipping."@,
{
    "😴 Nobody joined · skipping."
}

pub fn round_aborted_message() -> (r: &'static str)
    ensures
        r@
            == "⚠️ Round aborted · no location with enough valid images was available. An admin may need to run !prefetch or check the image source config."@,
{
    "⚠️ Round aborted · no location with enough valid images was available. An admin may need to run !prefetch or check the image source config."
}

/// The message that a guess is played again after a restart.
pub open spec fn replay_text(num: nat, total: nat, timeout: nat) -> Seq<char> {
    "⚠️ Bot restarted mid-round — replaying guess "@ + text::decimal(num) + "/"@ + text::decimal(
        total,
    ) + " with a fresh "@ + clock::duration_text(timeout) + " timer."@
}

/// The message that a guess is played again after a restart.
pub fn replay_message(ar: &ActiveRoundState) -> (out: String)
    ensures
        out@ == replay_text(
            ar.guess_num as nat,
            ar.total_guesses as nat,
            ar.answer_timeout_secs as nat,
        ),
        out@ == "⚠️ Bot restarted mid-round — replaying guess "@ + text::decimal(
            ar.guess_num as nat,
        ) + "/"@ + text::decimal(ar.total_guesses as nat) + " with a fresh "@
            + clock::duration_text(ar.answer_timeout_secs as nat) + " timer."@,
{
    let mut out = text::owned("⚠️ Bot restarted mid-round — replaying guess ");
    text::push_decimal(&mut out, ar.guess_num as u128);
    out.append("/");
    text::push_decimal(&mut out, ar.total_guesses as u128);
    out.append(" with a fresh ");
    out.append(clock::format_duration(ar.answer_timeout_secs).as_str());
    out.append(" timer.");
    out
}

// ── Images of the round ──────────────────────────────────────────────────────

/// Whether a cached location may be used: it has the required number of photos
/// and, where it has coordinates, it is far enough from everything played before.
pub open spec fn usable(img: GeoImage, nearest: F64Bits, n_photos: nat) -> bool {
    &&& img@.photos() >= n_photos
    &&& img@.located() ==> sources::far_enough(nearest)
}

/// The usable locations among the first `k` of the cache, in order.
pub open spec fn usable_among(
    cache: Seq<GeoImage>,
    distances: Seq<F64Bits>,
    n_photos: nat,
    k: int,
) -> Seq<GeoImage>
    decreases k,
{
    if k <= 0 {
        Seq::empty()
    } else if usable(cache[k - 1], distances[k - 1], n_photos) {
        usable_among(cache, distances, n_photos, k - 1).push(cache[k - 1])
    } else {
        usable_among(cache, distances, n_photos, k - 1)
    }
}

/// `k` locations are taken from the front of the cache: as few as hold `n`
/// usable ones, or all of them where there are not that many.
pub open spec fn takes(
    cache: Seq<GeoImage>,
    distances: Seq<F64Bits>,
    n_photos: nat,
    n: nat,
    k: int,
) -> bool {
    let got = usable_among(cache, distances, n_photos, k).len();
    &&& 0 <= k <= cache.len()
    &&& got <= n
    &&& got < n ==> k == cache.len()
    &&& k > 0 ==> usable_among(cache, distances, n_photos, k - 1).len() < n
}

/// Whether a cached location may be used.
fn is_usable(img: &GeoImage, nearest: F64Bits, n_photos: usize) -> (r: bool)
    ensures
        r == usable(*img, nearest, n_photos as nat),
{
    let spare: usize = img.extra_image_urls.len();
    let photos: u128 = spare as u128 + 1;
    if photos < n_photos as u128 {
        return false;
    }
    if img.lat.is_some() && img.lon.is_some() {
        sources::is_far_enough(nearest)
    } else {
        true
    }
}

/// Takes up to `n` usable locations from the front of the cache. Locations that
/// may not be used are dropped on the way. `distances` holds for each cached
/// location the distance to the nearest one played before.
pub fn pop_images(
    cache: &mut VecDeque<GeoImage>,
    distances: &Vec<F64Bits>,
    n: usize,
    n_photos: usize,
) -> (q: VecDeque<GeoImage>)
    requires
        distances@.len() == old(cache)@.len(),
    ensures
        exists|k: int|
            #[trigger] takes(old(cache)@, distances@, n_photos as nat, n as nat, k)
                && final(cache)@ == old(cache)@.skip(k) && q@ == usable_among(
                old(cache)@,
                distances@,
                n_photos as nat,
                k,
            ),
        q@.len() <= n,
        forall|i: int|
            0 <= i < q@.len() ==> may_be_asked(
                #[trigger] q@[i],
                old(cache)@,
                distances@,
                n_photos as nat,
            ),
        exists|k: int|
            0 <= k <= old(cache)@.len() && final(cache)@ == #[trigger] old(cache)@.skip(k),
        q@.len() < n ==> final(cache)@.len() == 0 && forall|j: int|
            0 <= j < old(cache)@.len() && is_good(
                #[trigger] old(cache)@[j],
                distances@[j],
                n_photos as nat,
            ) ==> q@.contains(old(cache)@[j]),
        n > 0 && old(cache)@.len() > 0 && is_good(old(cache)@[0], distances@[0], n_photos as nat)
            ==> q@.len() > 0 && q@[0] == old(cache)@[0],
{
    let ghost orig = cache@;
    let ghost d = distances@;
    let mut q: VecDeque<GeoImage> = VecDeque::new();
    let mut checked: usize = 0;
    let limit: usize = cache.len();
    assert(orig.skip(0) =~= orig);
    while q.len() < n && checked < limit
        invariant
            limit == orig.len(),
            checked <= limit,
            cache@ == orig.skip(checked as int),
            d == distances@,
            d.len() == limit,
            q@ == usable_among(orig, d, n_photos as nat, checked as int),
            q@.len() <= n,
            checked > 0 ==> usable_among(orig, d, n_photos as nat, checked - 1).len() < n,
        decreases limit - checked,
    {
        let nearest: F64Bits = distances[checked];
        match cache.pop_front() {
            Some(img) => {
                assert(img == orig[checked as int]);
                assert(orig.skip(checked as int).subrange(
                    1,
                    orig.skip(checked as int).len() as int,
                ) =~= orig.skip(checked as int + 1));
                if is_usable(&img, nearest, n_photos) {
                    q.push_back(img);
                }
            },
            None => {},
        }
        checked = checked + 1;
    }
    assert(takes(orig, d, n_photos as nat, n as nat, checked as int));
    proof {
        lemma_usable_among(orig, d, n_photos as nat, checked as int);
        assert forall|i: int| 0 <= i < q@.len() implies may_be_asked(
            #[trigger] q@[i],
            orig,
            d,
            n_photos as nat,
        ) by {
            let all = usable_among(orig, d, n_photos as nat, checked as int);
            assert(may_be_asked(all[i], orig, d, n_photos as nat));
        }
    }
    q
}

/// Whether a cached location is good for a round: it has at least `n_photos` photos
/// and, where it has coordinates, lies 75 km or more from the nearest place played
/// before.
pub open spec fn is_good(img: GeoImage, nearest: F64Bits, n_photos: nat) -> bool {
    &&& img.extra_image_urls@.len() + 1 >= n_photos
    &&& img.lat is Some && img.lon is Some ==> (F64Bits { bits: 0x4052_c000_0000_0000 }).le(&nearest)
}

/// Whether a location comes from the cache and is good for a round.
pub open spec fn may_be_asked(
    img: GeoImage,
    cache: Seq<GeoImage>,
    distances: Seq<F64Bits>,
    n_photos: nat,
) -> bool {
    exists|j: int|
        0 <= j < cache.len() && img == cache[j] && is_good(
            #[trigger] cache[j],
            distances[j],
            n_photos,
        )
}

proof fn lemma_usable_among(
    cache: Seq<GeoImage>,
    distances: Seq<F64Bits>,
    n_photos: nat,
    k: int,
)
    requires
        0 <= k <= cache.len(),
    ensures
        forall|i: int|
            0 <= i < usable_among(cache, distances, n_photos, k).len() ==> may_be_asked(
                #[trigger] usable_among(cache, distances, n_photos, k)[i],
                cache,
                distances,
                n_photos,
            ),
        forall|j: int|
            0 <= j < k && is_good(#[trigger] cache[j], distances[j], n_photos) ==> usable_among(
                cache,
                distances,
                n_photos,
                k,
            ).contains(cache[j]),
        k > 0 && is_good(cache[0], distances[0], n_photos) ==> usable_among(
            cache,
            distances,
            n_photos,
            k,
        ).len() > 0 && usable_among(cache, distances, n_photos, k)[0] == cache[0],
    decreases k,
{
    if k > 0 {
        let before = usable_among(cache, distances, n_photos, k - 1);
        let now = usable_among(cache, distances, n_photos, k);
        lemma_usable_among(cache, distances, n_photos, k - 1);
        let img = cache[k - 1];
        assert(text::views(img.extra_image_urls@).len() == img.extra_image_urls@.len());
        assert(usable(img, distances[k - 1], n_photos) == is_good(img, distances[k - 1], n_photos));
        assert forall|i: int| 0 <= i < now.len() implies may_be_asked(
            #[trigger] now[i],
            cache,
            distances,
            n_photos,
        ) by {
            if i < before.len() {
                assert(now[i] == before[i]);
            }
        }
        assert forall|j: int|
            0 <= j < k && is_good(
                #[trigger] cache[j],
                distances[j],
                n_photos,
            ) implies now.contains(cache[j]) by {
            if j < k - 1 {
                assert(before.contains(cache[j]));
                let a = choose|a: int| 0 <= a < before.len() && before[a] == cache[j];
                assert(now[a] == cache[j]);
            } else {
                assert(now[before.len() as int] == cache[j]);
            }
        }
    }
}

/// Every location that a round uses has the required number of photos and, where
/// its coordinates are known, is far enough from what was played before.
pub proof fn law_round_uses_only_usable_images(
    cache: Seq<GeoImage>,
    distances: Seq<F64Bits>,
    n_photos: nat,
    k: int,
    i: int,
)
    requires
        0 <= i < usable_among(cache, distances, n_photos, k).len(),
        k <= cache.len(),
    ensures
        exists|j: int|
            0 <= j < k && usable_among(cache, distances, n_photos, k)[i] == cache[j] && #[trigger] usable(
                cache[j],
                distances[j],
                n_photos,
            ),
    decreases k,
{
    let prev = usable_among(cache, distances, n_photos, k - 1);
    if i < prev.len() {
        law_round_uses_only_usable_images(cache, distances, n_photos, k - 1, i);
        let j = choose|j: int|
            0 <= j < k - 1 && prev[i] == cache[j] && #[trigger] usable(
                cache[j],
                distances[j],
                n_photos,
            );
        assert(usable(cache[j], distances[j], n_photos));
    } else {
        assert(usable(cache[k - 1], distances[k - 1], n_photos));
    }
}

// ── Playing the images in turn ───────────────────────────────────────────────

/// The images of a round that are still to be played.
pub struct RoundRun {
    /// Number of the guess at the front of the queue.
    pub next_num: u32,
    pub total: u32,
    pub queue: VecDeque<GeoImage>,
    /// Whether nothing has been played yet.
    pub fresh: bool,
}

/// One guess of a round.
pub struct Turn {
    pub guess_num: u32,
    pub total: u32,
    pub image: GeoImage,
    /// Whether to pause before the image is shown.
    pub pause_first: bool,
}

/// The number and image of each guess that is still to be played.
pub open spec fn turns(first: int, images: Seq<GeoImageView>) -> Seq<(int, GeoImageView)> {
    Seq::new(images.len(), |i: int| (first + i, images[i]))
}

/// What the images of a queue hold.
pub open spec fn image_views(q: Seq<GeoImage>) -> Seq<GeoImageView> {
    q.map_values(|g: GeoImage| g@)
}

impl RoundRun {
    /// Guess numbers stay within their type.
    pub open spec fn well_formed(&self) -> bool {
        self.next_num + self.queue@.len() <= u32::MAX + 1
    }

    /// The guesses still to be played.
    pub open spec fn upcoming(&self) -> Seq<(int, GeoImageView)> {
        turns(self.next_num as int, image_views(self.queue@))
    }

    /// A new round of `n` guesses. They are numbered from 1; where fewer images
    /// were found, the last numbers are not reached.
    pub fn start(n: u32, queue: VecDeque<GeoImage>) -> (r: Self)
        requires
            queue@.len() <= n,
        ensures
            r.well_formed(),
            r.total == n,
            r.fresh,
            r.upcoming() == turns(1, image_views(queue@)),
            r.next_num == 1,
            r.queue@ == queue@,
    {
        RoundRun { next_num: 1, total: n, queue, fresh: true }
    }

    /// A round whose join window was interrupted by a restart: the guesses are
    /// numbered from 1 to the number of images found.
    pub fn resume_join(queue: VecDeque<GeoImage>) -> (r: Self)
        requires
            queue@.len() <= u32::MAX,
        ensures
            r.well_formed(),
            r.total == queue@.len(),
            r.fresh,
            r.upcoming() == turns(1, image_views(queue@)),
            r.next_num == 1,
            r.queue@ == queue@,
    {
        let total: u32 = queue.len() as u32;
        RoundRun { next_num: 1, total, queue, fresh: true }
    }

    /// The guesses that follow the one at which a round was interrupted.
    pub fn resume_active(ar: &ActiveRoundState) -> (r: Self)
        requires
            ar.guess_num + ar.remaining_images@.len() <= u32::MAX,
        ensures
            r.well_formed(),
            r.total == ar.total_guesses,
            !r.fresh,
            r.upcoming() == (if ar.remaining_images@.len() == 0 {
                Seq::empty()
            } else {
                turns(ar.guess_num + 1, image_views(ar.remaining_images@))
            }),
            ar.remaining_images@.len() > 0 ==> r.next_num == ar.guess_num + 1,
            r.queue@.len() == ar.remaining_images@.len(),
            forall|i: int|
                0 <= i < r.queue@.len() ==> (#[trigger] r.queue@[i])@ == ar.remaining_images@[i]@,
    {
        let queue = copy_images(&ar.remaining_images);
        let next_num: u32 = if ar.remaining_images.len() == 0 {
            ar.guess_num
        } else {
            ar.guess_num + 1
        };
        let r = RoundRun { next_num, total: ar.total_guesses, queue, fresh: false };
        assert forall|i: int| 0 <= i < r.queue@.len() implies (#[trigger] r.queue@[i])@
            == ar.remaining_images@[i]@ by {
            assert(image_views(r.queue@)[i] == image_views(ar.remaining_images@)[i]);
        }
        assert(r.upcoming() =~= (if ar.remaining_images@.len() == 0 {
            Seq::empty()
        } else {
            turns(ar.guess_num + 1, image_views(ar.remaining_images@))
        }));
        r
    }

    /// Takes the next guess from the queue. There is a pause before every guess
    /// but the first of a new round.
    pub fn next_turn(&mut self) -> (r: Option<Turn>)
        requires
            old(self).well_formed(),
        ensures
            final(self).well_formed(),
            final(self).total == old(self).total,
            r is None <==> old(self).upcoming().len() == 0,
            r is None ==> final(self).upcoming() == old(self).upcoming(),
            r matches Some(t) ==> {
                &&& (t.guess_num as int, t.image@) == old(self).upcoming()[0]
                &&& t.total == old(self).total
                &&& t.pause_first == !old(self).fresh
                &&& final(self).upcoming() == old(self).upcoming().skip(1)
                &&& final(self).queue@ == old(self).queue@.skip(1)
                &&& !final(self).fresh
                &&& t.guess_num == old(self).next_num
                &&& t.image == old(self).queue@[0]
                &&& final(self).queue@.len() > 0 ==> final(self).next_num == t.guess_num + 1
            },
            r is Some <==> old(self).queue@.len() > 0,
    {
        match self.queue.pop_front() {
            None => {
                assert(self.queue@ == old(self).queue@);
                None
            },
            Some(image) => {
                let guess_num: u32 = self.next_num;
                let pause_first: bool = !self.fresh;
                if self.queue.len() > 0 {
                    self.next_num = self.next_num + 1;
                }
                self.fresh = false;
                assert(old(self).queue@.subrange(1, old(self).queue@.len() as int) =~= old(
                    self,
                ).queue@.skip(1));
                assert(self.upcoming() =~= old(self).upcoming().skip(1));
                Some(Turn { guess_num, total: self.total, image, pause_first })
            },
        }
    }

    /// What is saved before `turn` is played, so that a restart can resume it.
    pub fn saved_state(
        &self,
        round_id: i64,
        turn: &Turn,
        now: UtcInstant,
        answer_timeout_secs: u64,
        participants: &Vec<String>,
        scores: &StrMap<i64>,
    ) -> (r: ActiveRoundState)
        ensures
            r.round_id == round_id,
            r.guess_num == turn.guess_num,
            r.total_guesses == turn.total,
            r.current_image@ == turn.image@,
            image_views(r.remaining_images@) == image_views(self.queue@),
            r.guess_started_at == now,
            r.answer_timeout_secs == answer_timeout_secs,
            r.dm_participants@.dom() == text::views(participants@).to_set(),
            forall|u: Seq<char>|
                r.dm_participants@.dom().contains(u) ==> (#[trigger] r.dm_participants@[u]).dm_room_id@
                    == Seq::<char>::empty() && r.dm_participants@[u].prompt_event_id is None
                    && !r.dm_participants@[u].answer_acked,
            r.round_scores@ == scores@,
    {
        ActiveRoundState {
            round_id,
            guess_num: turn.guess_num,
            total_guesses: turn.total,
            current_image: turn.image.clone(),
            remaining_images: copy_images(&self.queue),
            guess_started_at: now,
            answer_timeout_secs,
            dm_participants: fresh_participants(participants),
            round_scores: copy_scores(scores),
        }
    }
}

/// Copies a queue of images.
fn copy_images(q: &VecDeque<GeoImage>) -> (r: VecDeque<GeoImage>)
    ensures
        image_views(r@) == image_views(q@),
        r@.len() == q@.len(),
{
    let mut r: VecDeque<GeoImage> = VecDeque::new();
    let mut i: usize = 0;
    while i < q.len()
        invariant
            i <= q@.len(),
            r@.len() == i,
            forall|k: int| 0 <= k < i ==> (#[trigger] r@[k])@ == q@[k]@,
        decreases q@.len() - i,
    {
        r.push_back(q[i].clone());
        i = i + 1;
    }
    assert(image_views(r@) =~= image_views(q@));
    r
}

/// Copies a score table.
pub fn copy_scores(scores: &StrMap<i64>) -> (r: StrMap<i64>)
    ensures
        r@ == scores@,
{
    let mut r: StrMap<i64> = StrMap::new();
    let n: usize = scores.len();
    let mut i: usize = 0;
    while i < n
        invariant
            i <= n,
            n == scores.keys().len(),
            scores.keys().no_duplicates(),
            scores@.dom() == scores.keys().to_set(),
            r@.dom() == scores.keys().take(i as int).to_set(),
            forall|u: Seq<char>| r@.dom().contains(u) ==> #[trigger] r@[u] == scores@[u],
        decreases n - i,
    {
        let (k, v) = scores.entry(i);
        let ghost before = r@;
        r.insert(k.clone(), *v);
        proof {
            let ks = scores.keys();
            assert(ks.take(i as int + 1) =~= ks.take(i as int).push(ks[i as int]));
            assert(r@.dom() =~= ks.take(i as int + 1).to_set()) by {
                broadcast use vstd::seq_lib::group_seq_properties;

            }
        }
        i = i + 1;
    }
    assert(scores.keys().take(n as int) =~= scores.keys());
    assert(r@ =~= scores@);
    r
}

/// A fresh entry for each player.
fn fresh_participants(ids: &Vec<String>) -> (r: StrMap<ActiveDmParticipant>)
    ensures
        r@.dom() == text::views(ids@).to_set(),
        forall|u: Seq<char>|
            r@.dom().contains(u) ==> (#[trigger] r@[u]).dm_room_id@ == Seq::<char>::empty()
                && r@[u].prompt_event_id is None && !r@[u].answer_acked,
{
    let mut r: StrMap<ActiveDmParticipant> = StrMap::new();
    let mut i: usize = 0;
    let ghost vs = text::views(ids@);
    while i < ids.len()
        invariant
            i <= ids@.len(),
            vs == text::views(ids@),
            r@.dom() == vs.take(i as int).to_set(),
            forall|u: Seq<char>|
                r@.dom().contains(u) ==> (#[trigger] r@[u]).dm_room_id@ == Seq::<char>::empty()
                    && r@[u].prompt_event_id is None && !r@[u].answer_acked,
        decreases ids@.len() - i,
    {
        let p = ActiveDmParticipant::default();
        r.insert(ids[i].clone(), p);
        proof {
            assert(vs.take(i as int + 1) =~= vs.take(i as int).push(vs[i as int]));
            assert(r@.dom() =~= vs.take(i as int + 1).to_set()) by {
                broadcast use vstd::seq_lib::group_seq_properties;

            }
        }
        i = i + 1;
    }
    assert(vs.take(vs.len() as int) =~= vs);
    r
}

/// A round that is interrupted and resumed plays the same images under the same
/// numbers as if it had not been interrupted: the saved guess first, then those
/// that were left.
pub proof fn law_resuming_continues_the_round(
    first: int,
    images: Seq<GeoImageView>,
    k: int,
    saved_num: int,
    saved_image: GeoImageView,
    saved_rest: Seq<GeoImageView>,
)
    requires
        0 <= k < images.len(),
        (saved_num, saved_image) == turns(first, images)[k],
        saved_rest == images.skip(k + 1),
    ensures
        turns(first, images).skip(k) == seq![(saved_num, saved_image)] + turns(
            saved_num + 1,
            saved_rest,
        ),
{
    assert(turns(first, images).skip(k) =~= seq![(saved_num, saved_image)] + turns(
        saved_num + 1,
        saved_rest,
    ));
}

/// Records that the game of a slot was played on `today`.
pub fn record_slot(state: &mut State, slot: &Option<String>, today: DayNumber)
    ensures
        final(state).last_game_dates@ == (match *slot {
            Some(s) => old(state).last_game_dates@.insert(s@, today),
            None => old(state).last_game_dates@,
        }),
        final(state).cached_guesses == old(state).cached_guesses,
        final(state).pending_join == old(state).pending_join,
        final(state).scheduled_once == old(state).scheduled_once,
        final(state).user_langs == old(state).user_langs,
        final(state).schedule_overrides == old(state).schedule_overrides,
        final(state).active_round == old(state).active_round,
        final(state).created_at == old(state).created_at,
{
    match slot {
        Some(s) => {
            state.last_game_dates.insert(s.clone(), today);
        },
        None => {},
    }
}

// ── The course of a round ────────────────────────────────────────────────────

/// How a round came about.
#[derive(Clone, Copy, Debug, PartialEq, Eq, Structural)]
pub enum RoundKind {
    /// Started by an admin: nobody is asked to join.
    Manual,
    /// Started by the scheduler.
    Scheduled,
    /// The join window was open when the bot went down.
    ResumedJoin,
    /// A guess was being played when the bot went down.
    ResumedActive,
}

/// What is being done.
#[derive(Clone, Copy, Debug, PartialEq, Eq, Structural)]
pub enum RoundStep {
    /// Post the join message, pin it, offer the flags and save the join window.
    PostJoin,
    /// Wait until the join window is over.
    AwaitPlayers,
    /// Collect the participants and close the join window.
    GatherPlayers,
    /// Say that nobody joined and mark the slot as played.
    Decline,
    /// Say who plays.
    Announce,
    /// Say that a guess is played again.
    AnnounceReplay,
    /// Make sure that this many usable images are cached.
    Prefetch(u64),
    /// Record the round in the database.
    OpenRound,
    /// Take the images from the cache, past those too close to a played place.
    TakeImages,
    /// Say that there are no images, close the round and forget it.
    AbortRound,
    /// Play the guess that was interrupted.
    Replay,
    /// Play the next guess.
    PlayNext,
    /// Close the round in the database.
    CloseRound,
    /// Record the scores of the round.
    RecordScores,
    /// Start filling the cache in the background.
    Refill(u64),
    /// Mark the slot as played.
    MarkSlot,
    /// Forget the round in progress and mark the slot as played, in one save.
    ForgetAndMark,
    /// Post the results.
    Summarise,
    /// Forget the round in progress.
    Forget,
    /// Nothing is left to do.
    Finished,
    /// The round broke off with an error.
    Failed,
}

/// How a step went.
#[derive(Clone, Copy, Debug, PartialEq, Eq, Structural)]
pub enum StepResult {
    Done,
    Broken,
    /// How many players, or images, there are; or whether (1) or not (0) there
    /// was another guess, which was then played.
    Count(u64),
}

/// The first step of a round.
pub open spec fn first_step(kind: RoundKind, join_phase: bool, n: nat) -> RoundStep {
    match kind {
        RoundKind::Manual => RoundStep::Prefetch(n as u64),
        RoundKind::Scheduled => if join_phase {
            RoundStep::PostJoin
        } else {
            RoundStep::Prefetch(n as u64)
        },
        RoundKind::ResumedJoin => RoundStep::AwaitPlayers,
        RoundKind::ResumedActive => RoundStep::AnnounceReplay,
    }
}

/// The step that follows. A round that starts afresh breaks off where a step
/// breaks that it cannot do without; one that was resumed carries on.
pub open spec fn step_after(kind: RoundKind, n: nat, step: RoundStep, result: StepResult) -> RoundStep {
    let resumed = kind == RoundKind::ResumedJoin || kind == RoundKind::ResumedActive;
    let broken = result == StepResult::Broken;
    match step {
        RoundStep::PostJoin => if broken {
            RoundStep::Failed
        } else {
            RoundStep::AwaitPlayers
        },
        RoundStep::AwaitPlayers => RoundStep::GatherPlayers,
        RoundStep::GatherPlayers => if broken {
            RoundStep::Finished
        } else if result == StepResult::Count(0) {
            RoundStep::Decline
        } else {
            RoundStep::Announce
        },
        RoundStep::Decline => RoundStep::Finished,
        RoundStep::Announce => if resumed {
            RoundStep::Prefetch((n + 2) as u64)
        } else {
            RoundStep::Prefetch(n as u64)
        },
        RoundStep::AnnounceReplay => RoundStep::Replay,
        RoundStep::Prefetch(_) => RoundStep::OpenRound,
        RoundStep::OpenRound => if broken {
            RoundStep::Failed
        } else {
            RoundStep::TakeImages
        },
        RoundStep::TakeImages => if result == StepResult::Count(0) && n > 0 {
            RoundStep::AbortRound
        } else {
            RoundStep::PlayNext
        },
        RoundStep::AbortRound => RoundStep::Finished,
        RoundStep::Replay => RoundStep::PlayNext,
        RoundStep::PlayNext => if broken && !resumed {
            RoundStep::Failed
        } else if result == StepResult::Count(0) {
            RoundStep::CloseRound
        } else {
            RoundStep::PlayNext
        },
        RoundStep::CloseRound => if broken && !resumed {
            RoundStep::Failed
        } else {
            RoundStep::RecordScores
        },
        RoundStep::RecordScores => if broken && !resumed {
            RoundStep::Failed
        } else if kind == RoundKind::ResumedJoin {
            RoundStep::ForgetAndMark
        } else if kind == RoundKind::ResumedActive {
            RoundStep::Summarise
        } else {
            RoundStep::Refill((n + 2) as u64)
        },
        RoundStep::Refill(_) => RoundStep::MarkSlot,
        RoundStep::MarkSlot => RoundStep::Summarise,
        RoundStep::ForgetAndMark => RoundStep::Summarise,
        RoundStep::Summarise => if kind == RoundKind::ResumedJoin {
            RoundStep::Finished
        } else {
            RoundStep::Forget
        },
        RoundStep::Forget => RoundStep::Finished,
        RoundStep::Finished => RoundStep::Finished,
        RoundStep::Failed => RoundStep::Failed,
    }
}

/// The first step of a round of `n` guesses.
pub fn begin_round(kind: RoundKind, join_phase: bool, n: u32) -> (r: RoundStep)
    ensures
        r == first_step(kind, join_phase, n as nat),
{
    match kind {
        RoundKind::Manual => RoundStep::Prefetch(n as u64),
        RoundKind::Scheduled => {
            if join_phase {
                RoundStep::PostJoin
            } else {
                RoundStep::Prefetch(n as u64)
            }
        },
        RoundKind::ResumedJoin => RoundStep::AwaitPlayers,
        RoundKind::ResumedActive => RoundStep::AnnounceReplay,
    }
}

/// The step that follows `step` in a round of `n` guesses.
pub fn next_step(kind: RoundKind, n: u32, step: RoundStep, result: StepResult) -> (r: RoundStep)
    ensures
        r == step_after(kind, n as nat, step, result),
{
    let resumed: bool = kind == RoundKind::ResumedJoin || kind == RoundKind::ResumedActive;
    let broken: bool = result == StepResult::Broken;
    let none: bool = result == StepResult::Count(0);
    let more: u64 = n as u64 + 2;
    match step {
        RoundStep::PostJoin => {
            if broken {
                RoundStep::Failed
            } else {
                RoundStep::AwaitPlayers
            }
        },
        RoundStep::AwaitPlayers => RoundStep::GatherPlayers,
        RoundStep::GatherPlayers => {
            if broken {
                RoundStep::Finished
            } else if none {
                RoundStep::Decline
            } else {
                RoundStep::Announce
            }
        },
        RoundStep::Decline => RoundStep::Finished,
        RoundStep::Announce => {
            if resumed {
                RoundStep::Prefetch(more)
            } else {
                RoundStep::Prefetch(n as u64)
            }
        },
        RoundStep::AnnounceReplay => RoundStep::Replay,
        RoundStep::Prefetch(_) => RoundStep::OpenRound,
        RoundStep::OpenRound => {
            if broken {
                RoundStep::Failed
            } else {
                RoundStep::TakeImages
            }
        },
        RoundStep::TakeImages => {
            if none && n > 0 {
                RoundStep::AbortRound
            } else {
                RoundStep::PlayNext
            }
        },
        RoundStep::AbortRound => RoundStep::Finished,
        RoundStep::Replay => RoundStep::PlayNext,
        RoundStep::PlayNext => {
            if broken && !resumed {
                RoundStep::Failed
            } else if none {
                RoundStep::CloseRound
            } else {
                RoundStep::PlayNext
            }
        },
        RoundStep::CloseRound => {
            if broken && !resumed {
                RoundStep::Failed
            } else {
                RoundStep::RecordScores
            }
        },
        RoundStep::RecordScores => {
            if broken && !resumed {
                RoundStep::Failed
            } else if kind == RoundKind::ResumedJoin {
                RoundStep::ForgetAndMark
            } else if kind == RoundKind::ResumedActive {
                RoundStep::Summarise
            } else {
                RoundStep::Refill(more)
            }
        },
        RoundStep::Refill(_) => RoundStep::MarkSlot,
        RoundStep::MarkSlot => RoundStep::Summarise,
        RoundStep::ForgetAndMark => RoundStep::Summarise,
        RoundStep::Summarise => {
            if kind == RoundKind::ResumedJoin {
                RoundStep::Finished
            } else {
                RoundStep::Forget
            }
        },
        RoundStep::Forget => RoundStep::Finished,
        RoundStep::Finished => RoundStep::Finished,
        RoundStep::Failed => RoundStep::Failed,
    }
}

/// The step that a round is at after these results.
pub open spec fn step_at(
    kind: RoundKind,
    join_phase: bool,
    n: nat,
    results: Seq<StepResult>,
) -> RoundStep
    decreases results.len(),
{
    if results.len() == 0 {
        first_step(kind, join_phase, n)
    } else {
        step_after(kind, n, step_at(kind, join_phase, n, results.drop_last()), results.last())
    }
}

/// Whether a round has gone through `step` before its current one.
pub open spec fn went_through(
    kind: RoundKind,
    join_phase: bool,
    n: nat,
    results: Seq<StepResult>,
    step: RoundStep,
) -> bool {
    exists|i: int|
        0 <= i < results.len() && #[trigger] step_at(kind, join_phase, n, results.take(i)) == step
}

proof fn lemma_went_through_extends(
    kind: RoundKind,
    join_phase: bool,
    n: nat,
    results: Seq<StepResult>,
    step: RoundStep,
)
    requires
        results.len() > 0,
    ensures
        went_through(kind, join_phase, n, results.drop_last(), step) || step_at(
            kind,
            join_phase,
            n,
            results.drop_last(),
        ) == step ==> went_through(kind, join_phase, n, results, step),
{
    let prev = results.drop_last();
    if went_through(kind, join_phase, n, prev, step) {
        let i = choose|i: int|
            0 <= i < prev.len() && #[trigger] step_at(kind, join_phase, n, prev.take(i)) == step;
        assert(prev.take(i) =~= results.take(i));
        assert(step_at(kind, join_phase, n, results.take(i)) == step);
    } else if step_at(kind, join_phase, n, prev) == step {
        assert(results.take(results.len() - 1) =~= prev);
        assert(step_at(kind, join_phase, n, results.take(results.len() - 1)) == step);
    }
}

/// Once the round is open, one whose join window was interrupted takes and plays
/// its images step by step as a scheduled round does, as long as nothing breaks.
pub proof fn law_resumed_join_plays_like_a_started_round(
    n: nat,
    step: RoundStep,
    result: StepResult,
)
    requires
        step == RoundStep::OpenRound || step == RoundStep::TakeImages || step
            == RoundStep::PlayNext || step == RoundStep::AbortRound,
        result != StepResult::Broken,
    ensures
        step_after(RoundKind::ResumedJoin, n, step, result) == step_after(
            RoundKind::Scheduled,
            n,
            step,
            result,
        ),
{
}

/// Results are posted, and the round in progress is forgotten, only after the
/// round was closed and its scores were recorded, in this order.
pub proof fn law_scores_are_recorded_before_results(
    kind: RoundKind,
    join_phase: bool,
    n: nat,
    results: Seq<StepResult>,
)
    ensures
        ({
            let s = step_at(kind, join_phase, n, results);
            let closed = went_through(kind, join_phase, n, results, RoundStep::CloseRound);
            &&& s == RoundStep::RecordScores ==> closed
            &&& s == RoundStep::Summarise || s == RoundStep::Forget || s
                == RoundStep::ForgetAndMark || s == RoundStep::MarkSlot || s is Refill ==> closed
                && went_through(kind, join_phase, n, results, RoundStep::RecordScores)
        }),
    decreases results.len(),
{
    if results.len() > 0 {
        let prev = results.drop_last();
        law_scores_are_recorded_before_results(kind, join_phase, n, prev);
        lemma_went_through_extends(kind, join_phase, n, results, RoundStep::CloseRound);
        lemma_went_through_extends(kind, join_phase, n, results, RoundStep::RecordScores);
    }
}

/// A round that was opened in the database and came to its end was also closed
/// there: either in the normal way or because it had no images.
pub proof fn law_opened_rounds_are_closed(
    kind: RoundKind,
    join_phase: bool,
    n: nat,
    results: Seq<StepResult>,
)
    requires
        step_at(kind, join_phase, n, results) == RoundStep::Finished,
        went_through(kind, join_phase, n, results, RoundStep::OpenRound),
    ensures
        went_through(kind, join_phase, n, results, RoundStep::CloseRound) || went_through(
            kind,
            join_phase,
            n,
            results,
            RoundStep::AbortRound,
        ),
{
    lemma_open_then_closed(kind, join_phase, n, results);
}

proof fn lemma_open_then_closed(
    kind: RoundKind,
    join_phase: bool,
    n: nat,
    results: Seq<StepResult>,
)
    ensures
        ({
            let s = step_at(kind, join_phase, n, results);
            let opened = went_through(kind, join_phase, n, results, RoundStep::OpenRound);
            let closed = went_through(kind, join_phase, n, results, RoundStep::CloseRound)
                || went_through(kind, join_phase, n, results, RoundStep::AbortRound);
            &&& s == RoundStep::Finished && opened ==> closed
            &&& s == RoundStep::PostJoin || s == RoundStep::AwaitPlayers || s
                == RoundStep::GatherPlayers || s == RoundStep::Decline ==> !opened
        }),
    decreases results.len(),
{
    if results.len() > 0 {
        let prev = results.drop_last();
        lemma_open_then_closed(kind, join_phase, n, prev);
        law_scores_are_recorded_before_results(kind, join_phase, n, prev);
        lemma_went_through_extends(kind, join_phase, n, results, RoundStep::CloseRound);
        lemma_went_through_extends(kind, join_phase, n, results, RoundStep::AbortRound);
        let was = step_at(kind, join_phase, n, prev);
        if went_through(kind, join_phase, n, results, RoundStep::OpenRound) && was
            != RoundStep::OpenRound {
            let i = choose|i: int|
                0 <= i < results.len() && #[trigger] step_at(kind, join_phase, n, results.take(i))
                    == RoundStep::OpenRound;
            assert(results.take(results.len() - 1) =~= prev);
            assert(i < prev.len());
            assert(prev.take(i) =~= results.take(i));
            assert(step_at(kind, join_phase, n, prev.take(i)) == RoundStep::OpenRound);
        }
    }
}

/// The step that a round is at after the first `i` of these results.
pub open spec fn nth_step(
    kind: RoundKind,
    join_phase: bool,
    n: nat,
    results: Seq<StepResult>,
    i: int,
) -> RoundStep {
    step_at(kind, join_phase, n, results.take(i))
}

proof fn lemma_one_step(
    kind: RoundKind,
    join_phase: bool,
    n: nat,
    results: Seq<StepResult>,
    i: int,
)
    requires
        0 <= i < results.len(),
    ensures
        nth_step(kind, join_phase, n, results, i + 1) == step_after(
            kind,
            n,
            nth_step(kind, join_phase, n, results, i),
            results[i],
        ),
{
    assert(results.take(i + 1).drop_last() =~= results.take(i));
}

/// How far along a step stands in a round.
pub open spec fn stage(step: RoundStep) -> int {
    match step {
        RoundStep::PostJoin => 0,
        RoundStep::AwaitPlayers => 1,
        RoundStep::GatherPlayers => 2,
        RoundStep::Decline => 3,
        RoundStep::Announce => 3,
        RoundStep::AnnounceReplay => 3,
        RoundStep::Prefetch(_) => 4,
        RoundStep::OpenRound => 5,
        RoundStep::TakeImages => 6,
        RoundStep::AbortRound => 7,
        RoundStep::Replay => 7,
        RoundStep::PlayNext => 8,
        RoundStep::CloseRound => 9,
        RoundStep::RecordScores => 10,
        RoundStep::Refill(_) => 11,
        RoundStep::MarkSlot => 12,
        RoundStep::ForgetAndMark => 12,
        RoundStep::Summarise => 13,
        RoundStep::Forget => 14,
        RoundStep::Finished => 15,
        RoundStep::Failed => 15,
    }
}

/// A round never goes back to a step it has left: apart from guesses, which follow
/// one another, and from its end, every step is done once at most.
pub proof fn law_rounds_move_forward(
    kind: RoundKind,
    join_phase: bool,
    n: nat,
    results: Seq<StepResult>,
    i: int,
    j: int,
)
    requires
        0 <= i < j <= results.len(),
    ensures
        ({
            let a = nth_step(kind, join_phase, n, results, i);
            let b = nth_step(kind, join_phase, n, results, j);
            &&& stage(a) <= stage(b)
            &&& a != RoundStep::PlayNext && a != RoundStep::Finished && a != RoundStep::Failed
                ==> stage(a) < stage(b)
            &&& a == RoundStep::Finished ==> b == RoundStep::Finished
            &&& a == RoundStep::Failed ==> b == RoundStep::Failed
        }),
    decreases j,
{
    lemma_one_step(kind, join_phase, n, results, j - 1);
    if i < j - 1 {
        law_rounds_move_forward(kind, join_phase, n, results, i, j - 1);
    }
}

/// Where somebody joined, the round is played: it never declines, it says who plays,
/// gets images (two to spare where the join window was interrupted), opens the round
/// and takes the images, and then plays them, as long as the database takes the
/// round and there is an image to play; without one it is called off.
pub proof fn law_joined_rounds_are_played(
    kind: RoundKind,
    join_phase: bool,
    n: nat,
    results: Seq<StepResult>,
    i: int,
    players: u64,
)
    requires
        n <= u32::MAX,
        0 <= i < results.len(),
        nth_step(kind, join_phase, n, results, i) == RoundStep::GatherPlayers,
        results[i] == StepResult::Count(players),
        players > 0,
    ensures
        !went_through(kind, join_phase, n, results, RoundStep::Decline),
        step_at(kind, join_phase, n, results) != RoundStep::Decline,
        nth_step(kind, join_phase, n, results, i + 1) == RoundStep::Announce,
        i + 2 <= results.len() ==> (nth_step(kind, join_phase, n, results, i + 2) matches
            RoundStep::Prefetch(wanted) && wanted == if kind == RoundKind::ResumedJoin {
            n + 2
        } else {
            n
        }),
        i + 3 <= results.len() ==> nth_step(kind, join_phase, n, results, i + 3)
            == RoundStep::OpenRound,
        i + 4 <= results.len() && results[i + 3] != StepResult::Broken ==> {
            &&& nth_step(kind, join_phase, n, results, i + 4) == RoundStep::TakeImages
            &&& i + 5 <= results.len() ==> nth_step(kind, join_phase, n, results, i + 5) == if n > 0
                && results[i + 4] == StepResult::Count(0) {
                RoundStep::AbortRound
            } else {
                RoundStep::PlayNext
            }
        },
        i + 4 <= results.len() && results[i + 3] == StepResult::Broken ==> nth_step(
            kind,
            join_phase,
            n,
            results,
            i + 4,
        ) == RoundStep::Failed,
{
    lemma_before_players(kind, join_phase, n, results, i);
    lemma_one_step(kind, join_phase, n, results, i);
    if i + 2 <= results.len() {
        lemma_one_step(kind, join_phase, n, results, i + 1);
    }
    if i + 3 <= results.len() {
        lemma_one_step(kind, join_phase, n, results, i + 2);
    }
    if i + 4 <= results.len() {
        lemma_one_step(kind, join_phase, n, results, i + 3);
    }
    if i + 5 <= results.len() {
        lemma_one_step(kind, join_phase, n, results, i + 4);
    }
    assert forall|j: int| 0 <= j <= results.len() implies #[trigger] step_at(
        kind,
        join_phase,
        n,
        results.take(j),
    ) != RoundStep::Decline by {
        assert(nth_step(kind, join_phase, n, results, j) == step_at(
            kind,
            join_phase,
            n,
            results.take(j),
        ));
        if j < i {
            law_rounds_move_forward(kind, join_phase, n, results, j, i);
        } else if j > i + 1 {
            law_rounds_move_forward(kind, join_phase, n, results, i + 1, j);
        }
    }
    assert(results.take(results.len() as int) =~= results);
}

/// Where nobody joined, that is said and the round is over: nothing is opened,
/// nothing is played and no scores are recorded.
pub proof fn law_empty_rounds_are_declined(
    kind: RoundKind,
    join_phase: bool,
    n: nat,
    results: Seq<StepResult>,
    i: int,
)
    requires
        0 <= i < results.len(),
        nth_step(kind, join_phase, n, results, i) == RoundStep::GatherPlayers,
        results[i] == StepResult::Count(0),
    ensures
        nth_step(kind, join_phase, n, results, i + 1) == RoundStep::Decline,
        i + 2 <= results.len() ==> {
            &&& went_through(kind, join_phase, n, results, RoundStep::Decline)
            &&& step_at(kind, join_phase, n, results) == RoundStep::Finished
        },
        !went_through(kind, join_phase, n, results, RoundStep::OpenRound),
        !went_through(kind, join_phase, n, results, RoundStep::PlayNext),
        !went_through(kind, join_phase, n, results, RoundStep::RecordScores),
        step_at(kind, join_phase, n, results) != RoundStep::OpenRound,
        step_at(kind, join_phase, n, results) != RoundStep::PlayNext,
{
    lemma_one_step(kind, join_phase, n, results, i);
    assert(results.take(results.len() as int) =~= results);
    if i + 2 <= results.len() {
        lemma_one_step(kind, join_phase, n, results, i + 1);
        if i + 2 < results.len() {
            law_rounds_move_forward(kind, join_phase, n, results, i + 2, results.len() as int);
        }
        assert(nth_step(kind, join_phase, n, results, results.len() as int)
            == RoundStep::Finished);
        assert(step_at(kind, join_phase, n, results.take(i + 1)) == RoundStep::Decline);
    }
    assert forall|j: int| 0 <= j <= results.len() implies {
        let s = #[trigger] step_at(kind, join_phase, n, results.take(j));
        s != RoundStep::OpenRound && s != RoundStep::PlayNext && s != RoundStep::RecordScores
    } by {
        assert(nth_step(kind, join_phase, n, results, j) == step_at(
            kind,
            join_phase,
            n,
            results.take(j),
        ));
        if j < i {
            law_rounds_move_forward(kind, join_phase, n, results, j, i);
        } else if j > i + 2 {
            law_rounds_move_forward(kind, join_phase, n, results, i + 2, j);
        }
    }
}

/// Only a round with a join window gathers players, and one that does has opened
/// nothing yet.
proof fn lemma_before_players(
    kind: RoundKind,
    join_phase: bool,
    n: nat,
    results: Seq<StepResult>,
    i: int,
)
    requires
        0 <= i <= results.len(),
        nth_step(kind, join_phase, n, results, i) == RoundStep::GatherPlayers,
    ensures
        kind == RoundKind::ResumedJoin || (kind == RoundKind::Scheduled && join_phase),
{
    if i == 0 {
        assert(results.take(0).len() == 0);
    } else {
        lemma_one_step(kind, join_phase, n, results, i - 1);
        let before = nth_step(kind, join_phase, n, results, i - 1);
        assert(before == RoundStep::AwaitPlayers);
        if i - 1 == 0 {
            assert(results.take(0).len() == 0);
        } else {
            lemma_one_step(kind, join_phase, n, results, i - 2);
            if i - 2 == 0 {
                assert(results.take(0).len() == 0);
            } else {
                lemma_one_step(kind, join_phase, n, results, i - 3);
            }
        }
    }
}

/// How rounds begin. One that was started without a join window gets as many images
/// as it has guesses, opens the round and takes them. One with a join window posts
/// the message, waits and gathers the players; where the window was interrupted it
/// only waits. One that was interrupted in a guess says so, replays that guess and
/// goes on with the next. A round that cannot post its message or open fails.
pub proof fn law_rounds_begin(
    kind: RoundKind,
    join_phase: bool,
    n: nat,
    results: Seq<StepResult>,
)
    requires
        n <= u32::MAX,
    ensures
        kind == RoundKind::Manual || (kind == RoundKind::Scheduled && !join_phase) ==> {
            &&& nth_step(kind, join_phase, n, results, 0) matches RoundStep::Prefetch(wanted)
                && wanted == n
            &&& results.len() >= 1 ==> nth_step(kind, join_phase, n, results, 1)
                == RoundStep::OpenRound
            &&& results.len() >= 2 ==> nth_step(kind, join_phase, n, results, 2) == if results[1]
                == StepResult::Broken {
                RoundStep::Failed
            } else {
                RoundStep::TakeImages
            }
        },
        kind == RoundKind::Scheduled && join_phase ==> {
            &&& nth_step(kind, join_phase, n, results, 0) == RoundStep::PostJoin
            &&& results.len() >= 1 ==> nth_step(kind, join_phase, n, results, 1) == if results[0]
                == StepResult::Broken {
                RoundStep::Failed
            } else {
                RoundStep::AwaitPlayers
            }
            &&& results.len() >= 2 && results[0] != StepResult::Broken ==> nth_step(
                kind,
                join_phase,
                n,
                results,
                2,
            ) == RoundStep::GatherPlayers
        },
        kind == RoundKind::ResumedJoin ==> {
            &&& nth_step(kind, join_phase, n, results, 0) == RoundStep::AwaitPlayers
            &&& results.len() >= 1 ==> nth_step(kind, join_phase, n, results, 1)
                == RoundStep::GatherPlayers
        },
        kind == RoundKind::ResumedActive ==> {
            &&& nth_step(kind, join_phase, n, results, 0) == RoundStep::AnnounceReplay
            &&& results.len() >= 1 ==> nth_step(kind, join_phase, n, results, 1)
                == RoundStep::Replay
            &&& results.len() >= 2 ==> nth_step(kind, join_phase, n, results, 2)
                == RoundStep::PlayNext
        },
{
    assert(results.take(0).len() == 0);
    if results.len() >= 1 {
        lemma_one_step(kind, join_phase, n, results, 0);
    }
    if results.len() >= 2 {
        lemma_one_step(kind, join_phase, n, results, 1);
    }
}

/// Guesses are played one after another until none is left, and the round is then
/// closed. A guess that breaks ends a round that was started here; one that was
/// resumed goes on with the next.
pub proof fn law_guesses_are_played_until_none_is_left(
    kind: RoundKind,
    join_phase: bool,
    n: nat,
    results: Seq<StepResult>,
    i: int,
)
    requires
        0 <= i < results.len(),
        nth_step(kind, join_phase, n, results, i) == RoundStep::PlayNext,
    ensures
        results[i] == StepResult::Count(0) ==> nth_step(kind, join_phase, n, results, i + 1)
            == RoundStep::CloseRound,
        results[i] == StepResult::Done || (results[i] matches StepResult::Count(c) && c > 0)
            ==> nth_step(kind, join_phase, n, results, i + 1) == RoundStep::PlayNext,
        results[i] == StepResult::Broken ==> nth_step(kind, join_phase, n, results, i + 1) == if kind
            == RoundKind::ResumedJoin || kind == RoundKind::ResumedActive {
            RoundStep::PlayNext
        } else {
            RoundStep::Failed
        },
{
    lemma_one_step(kind, join_phase, n, results, i);
}

/// Whether nothing breaks from the `i`-th step on that a round cannot do without: a
/// resumed round does without anything.
pub open spec fn holds_out(kind: RoundKind, results: Seq<StepResult>, i: int) -> bool {
    kind == RoundKind::ResumedJoin || kind == RoundKind::ResumedActive || forall|j: int|
        i <= j < results.len() ==> #[trigger] results[j] != StepResult::Broken
}

/// What follows the last guess, as long as nothing breaks: the scores are recorded
/// and the results posted. A round that was started here then fills the cache (two
/// images to spare), marks its slot before the results and forgets the round after
/// them; one whose join window was interrupted forgets and marks in one go; one that
/// was interrupted in a guess only forgets.
pub proof fn law_closed_rounds_are_wound_up(
    kind: RoundKind,
    join_phase: bool,
    n: nat,
    results: Seq<StepResult>,
    i: int,
)
    requires
        n <= u32::MAX,
        0 <= i <= results.len(),
        nth_step(kind, join_phase, n, results, i) == RoundStep::CloseRound,
        holds_out(kind, results, i),
    ensures
        i + 1 <= results.len() ==> nth_step(kind, join_phase, n, results, i + 1)
            == RoundStep::RecordScores,
        kind == RoundKind::Manual || kind == RoundKind::Scheduled ==> {
            &&& i + 2 <= results.len() ==> (nth_step(kind, join_phase, n, results, i + 2) matches
                RoundStep::Refill(wanted) && wanted == n + 2)
            &&& i + 3 <= results.len() ==> nth_step(kind, join_phase, n, results, i + 3)
                == RoundStep::MarkSlot
            &&& i + 4 <= results.len() ==> nth_step(kind, join_phase, n, results, i + 4)
                == RoundStep::Summarise
            &&& i + 5 <= results.len() ==> nth_step(kind, join_phase, n, results, i + 5)
                == RoundStep::Forget
            &&& i + 6 <= results.len() ==> nth_step(kind, join_phase, n, results, i + 6)
                == RoundStep::Finished
        },
        kind == RoundKind::ResumedJoin ==> {
            &&& i + 2 <= results.len() ==> nth_step(kind, join_phase, n, results, i + 2)
                == RoundStep::ForgetAndMark
            &&& i + 3 <= results.len() ==> nth_step(kind, join_phase, n, results, i + 3)
                == RoundStep::Summarise
            &&& i + 4 <= results.len() ==> nth_step(kind, join_phase, n, results, i + 4)
                == RoundStep::Finished
        },
        kind == RoundKind::ResumedActive ==> {
            &&& i + 2 <= results.len() ==> nth_step(kind, join_phase, n, results, i + 2)
                == RoundStep::Summarise
            &&& i + 3 <= results.len() ==> nth_step(kind, join_phase, n, results, i + 3)
                == RoundStep::Forget
            &&& i + 4 <= results.len() ==> nth_step(kind, join_phase, n, results, i + 4)
                == RoundStep::Finished
        },
{
    if i + 1 <= results.len() {
        lemma_one_step(kind, join_phase, n, results, i);
    }
    if i + 2 <= results.len() {
        lemma_one_step(kind, join_phase, n, results, i + 1);
    }
    if i + 3 <= results.len() {
        lemma_one_step(kind, join_phase, n, results, i + 2);
    }
    if i + 4 <= results.len() {
        lemma_one_step(kind, join_phase, n, results, i + 3);
    }
    if i + 5 <= results.len() {
        lemma_one_step(kind, join_phase, n, results, i + 4);
    }
    if i + 6 <= results.len() {
        lemma_one_step(kind, join_phase, n, results, i + 5);
    }
}

/// A round that was started here and cannot close in the database, or cannot record
/// its scores there, fails: it posts no results.
pub proof fn law_unrecorded_rounds_fail(
    kind: RoundKind,
    join_phase: bool,
    n: nat,
    results: Seq<StepResult>,
    i: int,
)
    requires
        kind == RoundKind::Manual || kind == RoundKind::Scheduled,
        0 <= i < results.len(),
        nth_step(kind, join_phase, n, results, i) == RoundStep::CloseRound || nth_step(
            kind,
            join_phase,
            n,
            results,
            i,
        ) == RoundStep::RecordScores,
        results[i] == StepResult::Broken,
    ensures
        step_at(kind, join_phase, n, results) == RoundStep::Failed,
        !went_through(kind, join_phase, n, results, RoundStep::Summarise),
{
    lemma_one_step(kind, join_phase, n, results, i);
    assert(results.take(results.len() as int) =~= results);
    if i + 1 < results.len() {
        law_rounds_move_forward(kind, join_phase, n, results, i + 1, results.len() as int);
    }
    assert(nth_step(kind, join_phase, n, results, results.len() as int) == RoundStep::Failed);
    assert forall|j: int| 0 <= j < results.len() implies #[trigger] step_at(
        kind,
        join_phase,
        n,
        results.take(j),
    ) != RoundStep::Summarise by {
        assert(nth_step(kind, join_phase, n, results, j) == step_at(
            kind,
            join_phase,
            n,
            results.take(j),
        ));
        if j < i {
            law_rounds_move_forward(kind, join_phase, n, results, j, i);
        } else if j > i + 1 {
            law_rounds_move_forward(kind, join_phase, n, results, i + 1, j);
        }
    }
}

/// A round whose players cannot be gathered, and one that was called off for want of
/// images, is over.
pub proof fn law_rounds_that_cannot_go_on_are_over(
    kind: RoundKind,
    join_phase: bool,
    n: nat,
    results: Seq<StepResult>,
    i: int,
)
    requires
        0 <= i < results.len(),
        nth_step(kind, join_phase, n, results, i) == RoundStep::AbortRound || (nth_step(
            kind,
            join_phase,
            n,
            results,
            i,
        ) == RoundStep::GatherPlayers && results[i] == StepResult::Broken),
    ensures
        step_at(kind, join_phase, n, results) == RoundStep::Finished,
{
    lemma_one_step(kind, join_phase, n, results, i);
    assert(results.take(results.len() as int) =~= results);
    if i + 1 < results.len() {
        law_rounds_move_forward(kind, join_phase, n, results, i + 1, results.len() as int);
    }
    assert(nth_step(kind, join_phase, n, results, results.len() as int) == RoundStep::Finished);
}

} // verus!
