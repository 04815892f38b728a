//! A single guess: showing the image, counting down, collecting and ranking the
//! answers.

use vstd::prelude::*;

use crate::bits::F64Bits;
use crate::clock;
use crate::round;
use crate::sort;
use crate::sort::Ranked;
use crate::state::UtcInstant;
use crate::str_map::StrMap;
use crate::text;

verus! {

// ── Answers ──────────────────────────────────────────────────────────────────

/// Where a player thinks the photo was taken.
pub struct FreeGuess {
    pub text: String,
    pub lat: F64Bits,
    pub lon: F64Bits,
    pub submitted_at: UtcInstant,
}

/// The guess that is being played.
pub struct ActiveGame {
    pub event_id: String,
    pub mode: ActiveGameMode,
}

/// How the guess is played.
pub enum ActiveGameMode {
    FreeGuess { guesses: StrMap<FreeGuess>, actual_lat: F64Bits, actual_lon: F64Bits },
}

impl ActiveGameMode {
    /// The answers so far.
    pub open spec fn answers(&self) -> Map<Seq<char>, FreeGuess> {
        match self {
            ActiveGameMode::FreeGuess { guesses, .. } => guesses@,
        }
    }

    /// Where the photo was taken.
    pub open spec fn target(&self) -> (F64Bits, F64Bits) {
        match self {
            ActiveGameMode::FreeGuess { actual_lat, actual_lon, .. } => (*actual_lat, *actual_lon),
        }
    }
}

impl ActiveGame {
    /// A guess with no answers yet.
    pub fn open(event_id: String, actual_lat: F64Bits, actual_lon: F64Bits) -> (g: Self)
        ensures
            g.event_id == event_id,
            g.mode.answers() == Map::<Seq<char>, FreeGuess>::empty(),
            g.mode.target() == (actual_lat, actual_lon),
    {
        ActiveGame {
            event_id,
            mode: ActiveGameMode::FreeGuess { guesses: StrMap::new(), actual_lat, actual_lon },
        }
    }

    /// Records an answer. It is refused, and nothing changes, where answers are
    /// limited and the player has already given one; otherwise it replaces any
    /// earlier answer of the player.
    pub fn record_free_guess(&mut self, user_id: String, guess: FreeGuess, max_guesses: u32) -> (r:
        bool)
        ensures
            r == !(max_guesses > 0 && old(self).mode.answers().dom().contains(user_id@)),
            final(self).mode.answers() == recorded(
                old(self).mode.answers(),
                user_id@,
                guess,
                max_guesses as nat,
            ),
            final(self).mode.target() == old(self).mode.target(),
            final(self).event_id == old(self).event_id,
            r ==> final(self).mode.answers().dom().contains(user_id@)
                && final(self).mode.answers()[user_id@] == guess,
            !r ==> final(self).mode.answers() == old(self).mode.answers(),
            max_guesses == 0 || !old(self).mode.answers().dom().contains(user_id@) ==> r,
            forall|other: Seq<char>|
                other != user_id@ ==> {
                    &&& #[trigger] final(self).mode.answers().dom().contains(other)
                        == old(self).mode.answers().dom().contains(other)
                    &&& final(self).mode.answers()[other] == old(self).mode.answers()[other]
                },
    {
        match &mut self.mode {
            ActiveGameMode::FreeGuess { guesses, .. } => {
                if max_guesses > 0 && guesses.contains_key(user_id.as_str()) {
                    return false;
                }
                guesses.insert(user_id, guess);
                true
            },
        }
    }

    /// How many players have answered.
    pub fn answer_count(&self) -> (n: usize)
        ensures
            n == self.mode.answers().dom().len(),
            self.mode.answers().dom().finite(),
    {
        match &self.mode {
            ActiveGameMode::FreeGuess { guesses, .. } => guesses.len(),
        }
    }

    /// The answer of a player.
    pub fn answer_of(&self, user_id: &str) -> (r: Option<&FreeGuess>)
        ensures
            r is Some == self.mode.answers().dom().contains(user_id@),
            r matches Some(g) ==> *g == self.mode.answers()[user_id@],
    {
        match &self.mode {
            ActiveGameMode::FreeGuess { guesses, .. } => guesses.get(user_id),
        }
    }

    /// Whether there are players and each of them has answered.
    pub fn all_in(&self, participants: &Vec<String>) -> (r: bool)
        ensures
            r == everyone_answered(self.mode.answers().dom(), text::views(participants@)),
            r ==> participants@.len() > 0,
            r ==> forall|i: int|
                0 <= i < participants@.len() ==> self.mode.answers().dom().contains(
                    (#[trigger] participants@[i])@,
                ),
            !r ==> participants@.len() == 0 || exists|i: int|
                0 <= i < participants@.len() && !self.mode.answers().dom().contains(
                    (#[trigger] participants@[i])@,
                ),
    {
        if participants.len() == 0 {
            return false;
        }
        let mut i: usize = 0;
        while i < participants.len()
            invariant
                i <= participants@.len(),
                forall|k: int|
                    0 <= k < i ==> self.mode.answers().dom().contains(
                        #[trigger] text::views(participants@)[k],
                    ),
            decreases participants@.len() - i,
        {
            let here = match &self.mode {
                ActiveGameMode::FreeGuess { guesses, .. } => guesses.contains_key(
                    participants[i].as_str(),
                ),
            };
            assert(text::views(participants@)[i as int] == participants@[i as int]@);
            if !here {
                assert(!self.mode.answers().dom().contains(participants@[i as int]@));
                return false;
            }
            i = i + 1;
        }
        assert forall|k: int| 0 <= k < participants@.len() implies self.mode.answers().dom().contains(
            (#[trigger] participants@[k])@,
        ) by {
            assert(text::views(participants@)[k] == participants@[k]@);
        }
        true
    }
}

/// There are players and each of them is among those who answered.
pub open spec fn everyone_answered(answered: Set<Seq<char>>, players: Seq<Seq<char>>) -> bool {
    players.len() > 0 && forall|k: int|
        0 <= k < players.len() ==> answered.contains(#[trigger] players[k])
}

/// Where answers are limited, the first answer of a player stays, whatever the
/// player sends later; where they are not, the last one counts.
pub proof fn law_first_answer_stays_when_limited(
    answers: Map<Seq<char>, FreeGuess>,
    user: Seq<char>,
    first: FreeGuess,
    later: FreeGuess,
    max_guesses: nat,
)
    ensures
        ({
            let once = recorded(answers, user, first, max_guesses);
            let twice = recorded(once, user, later, max_guesses);
            &&& max_guesses > 0 ==> twice == once
            &&& max_guesses == 0 ==> twice[user] == later
        }),
{
}

/// The answers after one more is sent in.
pub open spec fn recorded(
    answers: Map<Seq<char>, FreeGuess>,
    user: Seq<char>,
    guess: FreeGuess,
    max_guesses: nat,
) -> Map<Seq<char>, FreeGuess> {
    if max_guesses > 0 && answers.dom().contains(user) {
        answers
    } else {
        answers.insert(user, guess)
    }
}

// ── The course of a guess ────────────────────────────────────────────────────

/// What is being done.
#[derive(Clone, Copy, Debug, PartialEq, Eq, Structural)]
pub enum GuessStage {
    /// The photos are fetched and uploaded.
    Uploading,
    /// Photo `next` of `total` is being posted.
    Posting { next: usize, total: usize },
    /// The players get their links.
    Linking,
    /// The countdown message is being posted.
    Prompting { web: bool },
    /// The countdown runs; `nap` seconds pass before it is looked at again.
    Counting { web: bool, remaining: u64, nap: u64 },
    /// The time is up, or everybody has answered.
    Closing { web: bool, all_in: bool },
    /// The guess is skipped because its photo could not be shown.
    Skipped,
    /// The guess broke off with an error.
    Failed,
}

/// How the current activity went.
#[derive(Clone, Copy, Debug, PartialEq, Eq, Structural)]
pub enum GuessEvent {
    /// This many photos were uploaded, the reference photo among them.
    Uploaded(usize),
    /// Done; for links: whether web links were handed out, for a nap: whether
    /// everybody has answered.
    Done(bool),
    Broken,
}

/// Seconds between two updates of the countdown.
pub open spec fn edit_interval(total_secs: nat) -> nat {
    if total_secs / 20 < 15 {
        15
    } else if total_secs / 20 > 900 {
        900
    } else {
        total_secs / 20
    }
}

/// Seconds until the countdown is looked at again.
pub open spec fn nap(total_secs: nat, remaining: nat) -> nat {
    if remaining < edit_interval(total_secs) {
        remaining
    } else {
        edit_interval(total_secs)
    }
}

/// The stage that follows.
pub open spec fn stage_after(total_secs: u64, stage: GuessStage, event: GuessEvent) -> GuessStage {
    match stage {
        GuessStage::Uploading => match event {
            GuessEvent::Uploaded(total) => if total == 0 {
                GuessStage::Skipped
            } else {
                GuessStage::Posting { next: 0, total }
            },
            _ => GuessStage::Skipped,
        },
        GuessStage::Posting { next, total } => if event == GuessEvent::Broken && next == 0 {
            GuessStage::Skipped
        } else if next + 1 < total {
            GuessStage::Posting { next: (next + 1) as usize, total }
        } else {
            GuessStage::Linking
        },
        GuessStage::Linking => GuessStage::Prompting { web: event == GuessEvent::Done(true) },
        GuessStage::Prompting { web } => if event == GuessEvent::Broken {
            GuessStage::Failed
        } else {
            GuessStage::Counting {
                web,
                remaining: total_secs,
                nap: nap(total_secs as nat, total_secs as nat) as u64,
            }
        },
        GuessStage::Counting { web, remaining, nap: n } => {
            let left = (remaining - n) as u64;
            if event == GuessEvent::Done(true) || left == 0 {
                GuessStage::Closing { web, all_in: event == GuessEvent::Done(true) }
            } else {
                GuessStage::Counting {
                    web,
                    remaining: left,
                    nap: nap(total_secs as nat, left as nat) as u64,
                }
            }
        },
        _ => stage,
    }
}

/// A stage that can be reached: a nap is never longer than the time that is left.
pub open spec fn stage_valid(total_secs: u64, stage: GuessStage) -> bool {
    match stage {
        GuessStage::Posting { next, total } => next < total,
        GuessStage::Counting { remaining, nap: n, .. } => remaining <= total_secs && n == nap(
            total_secs as nat,
            remaining as nat,
        ),
        _ => true,
    }
}

/// The stage that follows `stage`.
pub fn next_stage(total_secs: u64, stage: GuessStage, event: GuessEvent) -> (r: GuessStage)
    requires
        stage_valid(total_secs, stage),
    ensures
        r == stage_after(total_secs, stage, event),
        stage_valid(total_secs, r),
        r matches GuessStage::Counting { remaining, nap: n, .. } ==> {
            &&& n <= remaining <= total_secs
            &&& n <= 900
            &&& n < remaining ==> 15 <= n && (n == 15 || n == 900 || n == total_secs / 20)
        },
        stage matches GuessStage::Counting { web, remaining, nap: n } ==> {
            &&& event == GuessEvent::Done(true) ==> r == (GuessStage::Closing { web, all_in: true })
            &&& event != GuessEvent::Done(true) && n == remaining ==> r == (GuessStage::Closing {
                web,
                all_in: false,
            })
            &&& event != GuessEvent::Done(true) && n < remaining ==> (r matches
                GuessStage::Counting { web: w, remaining: left, .. } && w == web && left + n
                == remaining)
        },
{
    let tenth: u64 = total_secs / 20;
    let interval: u64 = if tenth < 15 {
        15
    } else if tenth > 900 {
        900
    } else {
        tenth
    };
    match stage {
        GuessStage::Uploading => {
            match event {
                GuessEvent::Uploaded(total) => {
                    if total == 0 {
                        GuessStage::Skipped
                    } else {
                        GuessStage::Posting { next: 0, total }
                    }
                },
                _ => GuessStage::Skipped,
            }
        },
        GuessStage::Posting { next, total } => {
            if event == GuessEvent::Broken && next == 0 {
                GuessStage::Skipped
            } else if next + 1 < total {
                GuessStage::Posting { next: next + 1, total }
            } else {
                GuessStage::Linking
            }
        },
        GuessStage::Linking => GuessStage::Prompting { web: event == GuessEvent::Done(true) },
        GuessStage::Prompting { web } => {
            if event == GuessEvent::Broken {
                GuessStage::Failed
            } else {
                let n: u64 = if total_secs < interval {
                    total_secs
                } else {
                    interval
                };
                GuessStage::Counting { web, remaining: total_secs, nap: n }
            }
        },
        GuessStage::Counting { web, remaining, nap: n } => {
            let left: u64 = remaining - n;
            let all_in: bool = event == GuessEvent::Done(true);
            if all_in || left == 0 {
                GuessStage::Closing { web, all_in }
            } else {
                let m: u64 = if left < interval {
                    left
                } else {
                    interval
                };
                GuessStage::Counting { web, remaining: left, nap: m }
            }
        },
        GuessStage::Closing { web, all_in } => GuessStage::Closing { web, all_in },
        GuessStage::Skipped => GuessStage::Skipped,
        GuessStage::Failed => GuessStage::Failed,
    }
}

/// The stage that a guess is at after these events.
pub open spec fn stage_at(total_secs: u64, events: Seq<GuessEvent>) -> GuessStage
    decreases events.len(),
{
    if events.len() == 0 {
        GuessStage::Uploading
    } else {
        stage_after(total_secs, stage_at(total_secs, events.drop_last()), events.last())
    }
}

/// Whether the guess can be answered or has been.
pub open spec fn playable(stage: GuessStage) -> bool {
    stage is Linking || stage is Prompting || stage is Counting || stage is Closing
}

/// A guess becomes playable only once its reference photo has been posted.
pub proof fn law_no_countdown_without_reference_photo(total_secs: u64, events: Seq<GuessEvent>)
    requires
        playable(stage_at(total_secs, events)),
    ensures
        exists|i: int|
            0 <= i < events.len() && (#[trigger] stage_at(total_secs, events.take(i)) matches GuessStage::Posting {
                next,
                ..
            } && next == 0) && events[i] != GuessEvent::Broken,
    decreases events.len(),
{
    if events.len() > 0 {
        lemma_reference_photo(total_secs, events);
    }
}

/// Some event posted the reference photo.
spec fn reference_posted(total_secs: u64, events: Seq<GuessEvent>) -> bool {
    exists|i: int|
        0 <= i < events.len() && (#[trigger] stage_at(total_secs, events.take(i)) matches GuessStage::Posting {
            next,
            ..
        } && next == 0) && events[i] != GuessEvent::Broken
}

proof fn lemma_reference_photo(total_secs: u64, events: Seq<GuessEvent>)
    ensures
        playable(stage_at(total_secs, events)) || (stage_at(
            total_secs,
            events,
        ) matches GuessStage::Posting { next, .. } && next > 0) ==> reference_posted(
            total_secs,
            events,
        ),
    decreases events.len(),
{
    if events.len() > 0 {
        let prev = events.drop_last();
        assert(events.last() == events[events.len() - 1]);
        lemma_reference_photo(total_secs, prev);
        if reference_posted(total_secs, prev) {
            let i = choose|i: int|
                0 <= i < prev.len() && (#[trigger] stage_at(total_secs, prev.take(i)) matches GuessStage::Posting {
                    next,
                    ..
                } && next == 0) && prev[i] != GuessEvent::Broken;
            assert(prev.take(i) =~= events.take(i));
            assert(stage_at(total_secs, events.take(i)) == stage_at(total_secs, prev.take(i)));
            assert(events[i] == prev[i]);
        }
        let last = events.len() - 1;
        assert(events.take(last) =~= prev);
        assert(stage_at(total_secs, events.take(last)) == stage_at(total_secs, prev));
    }
}

/// The photos are posted one after the other, the reference photo first. Without any,
/// or where the reference photo cannot be posted, the guess is skipped; a photo of the
/// surroundings that cannot be posted is passed over.
pub proof fn law_photos_are_posted_in_turn(total_secs: u64, photos: usize, event: GuessEvent)
    ensures
        stage_after(total_secs, GuessStage::Uploading, GuessEvent::Uploaded(0))
            == GuessStage::Skipped,
        stage_after(total_secs, GuessStage::Uploading, GuessEvent::Broken) == GuessStage::Skipped,
        photos > 0 ==> stage_after(
            total_secs,
            GuessStage::Uploading,
            GuessEvent::Uploaded(photos),
        ) == (GuessStage::Posting { next: 0, total: photos }),
        photos > 0 ==> stage_after(
            total_secs,
            GuessStage::Posting { next: 0, total: photos },
            GuessEvent::Broken,
        ) == GuessStage::Skipped,
        forall|i: usize|
            #![trigger stage_after(
                total_secs,
                GuessStage::Posting { next: i, total: photos },
                event,
            )]
            i < photos && (i > 0 || event != GuessEvent::Broken) ==> {
                let after = stage_after(
                    total_secs,
                    GuessStage::Posting { next: i, total: photos },
                    event,
                );
                if i + 1 == photos {
                    after == GuessStage::Linking
                } else {
                    after matches GuessStage::Posting { next, total } && next == i + 1 && total
                        == photos
                }
            },
{
}

/// Once the photos are there the players get their links, then the countdown is posted
/// and starts with the whole answer time; it tells whether web links were handed out,
/// from the first message to the last. A countdown that cannot be posted fails the
/// guess.
pub proof fn law_countdown_starts_after_the_links(total_secs: u64, web: bool, event: GuessEvent)
    ensures
        stage_after(total_secs, GuessStage::Linking, GuessEvent::Done(web))
            == (GuessStage::Prompting { web }),
        stage_after(total_secs, GuessStage::Linking, GuessEvent::Broken)
            == (GuessStage::Prompting { web: false }),
        stage_after(total_secs, GuessStage::Prompting { web }, GuessEvent::Broken)
            == GuessStage::Failed,
        event != GuessEvent::Broken ==> (stage_after(
            total_secs,
            GuessStage::Prompting { web },
            event,
        ) matches GuessStage::Counting { web: w, remaining, .. } && w == web && remaining
            == total_secs),
        forall|s: GuessStage|
            s is Closing || s is Skipped || s is Failed ==> #[trigger] stage_after(
                total_secs,
                s,
                event,
            ) == s,
{
}

/// The seconds that the countdown has waited through in these events.
pub open spec fn waited(total_secs: u64, events: Seq<GuessEvent>) -> nat
    decreases events.len(),
{
    if events.len() == 0 {
        0
    } else {
        let before = waited(total_secs, events.drop_last());
        match stage_at(total_secs, events.drop_last()) {
            GuessStage::Counting { nap: n, .. } => before + n as nat,
            _ => before,
        }
    }
}

/// The countdown waits exactly as long as players have to answer, unless all of
/// them have answered; then it waits no longer than that.
pub proof fn law_countdown_lasts_the_answer_time(total_secs: u64, events: Seq<GuessEvent>)
    ensures
        stage_valid(total_secs, stage_at(total_secs, events)),
        match stage_at(total_secs, events) {
            GuessStage::Counting { remaining, .. } => waited(total_secs, events) + remaining
                == total_secs,
            GuessStage::Closing { all_in, .. } => if all_in {
                waited(total_secs, events) <= total_secs
            } else {
                waited(total_secs, events) == total_secs
            },
            _ => waited(total_secs, events) == 0,
        },
    decreases events.len(),
{
    if events.len() > 0 {
        law_countdown_lasts_the_answer_time(total_secs, events.drop_last());
    }
}

// ── Texts ────────────────────────────────────────────────────────────────────

/// Number and total of a guess, as in "2/5".
pub open spec fn fraction(num: nat, total: nat) -> Seq<char> {
    text::decimal(num) + "/"@ + text::decimal(total)
}

fn push_fraction(out: &mut String, num: u128, total: u128)
    ensures
        final(out)@ == old(out)@ + fraction(num as nat, total as nat),
        final(out)@ == old(out)@ + (text::decimal(num as nat) + "/"@ + text::decimal(
            total as nat,
        )),
{
    text::push_decimal(out, num);
    out.append("/");
    text::push_decimal(out, total);
    assert(out@ =~= old(out)@ + fraction(num as nat, total as nat));
}

/// The caption of photo `i` of `n`.
pub open spec fn label_text(i: nat, n: nat) -> Seq<char> {
    if i == 0 {
        if n == 1 {
            "📍 Reference location"@
        } else {
            "📍 Reference location (1/"@ + text::decimal(n) + ")"@
        }
    } else {
        "📍 Context image ("@ + fraction(i + 1, n) + ")"@
    }
}

/// The caption of photo `i` of `n`.
pub fn image_label(i: usize, n: usize) -> (out: String)
    ensures
        out@ == label_text(i as nat, n as nat),
        i == 0 && n == 1 ==> out@ == "📍 Reference location"@,
        i == 0 && n != 1 ==> out@ == "📍 Reference location (1/"@ + text::decimal(n as nat) + ")"@,
        i > 0 ==> out@ == "📍 Context image ("@ + (text::decimal((i + 1) as nat) + "/"@
            + text::decimal(n as nat)) + ")"@,
{
    if i == 0 {
        if n == 1 {
            text::owned("📍 Reference location")
        } else {
            let mut out = text::owned("📍 Reference location (1/");
            text::push_decimal(&mut out, n as u128);
            out.append(")");
            out
        }
    } else {
        let mut out = text::owned("📍 Context image (");
        push_fraction(&mut out, i as u128 + 1, n as u128);
        out.append(")");
        out
    }
}

/// What is added to the countdown where players answer in the room.
pub open spec fn guess_hint(web: bool) -> Seq<char> {
    if web {
        ""@
    } else {
        "\n📍 Where is this? Type: **!guess** city, country, or lat,lon"@
    }
}

fn push_guess_hint(out: &mut String, web: bool)
    ensures
        final(out)@ == old(out)@ + guess_hint(web),
        web ==> final(out)@ == old(out)@ + ""@,
        !web ==> final(out)@ == old(out)@
            + "\n📍 Where is this? Type: **!guess** city, country, or lat,lon"@,
{
    out.append(
        if web {
            ""
        } else {
            "\n📍 Where is this? Type: **!guess** city, country, or lat,lon"
        },
    );
}

/// The countdown message when the guess opens.
pub open spec fn prompt_text(num: nat, total: nat, secs: nat, web: bool) -> Seq<char> {
    "🌍 Guess "@ + fraction(num, total) + " | ⏳ "@ + clock::duration_text(secs) + guess_hint(web)
}

/// The countdown message when the guess opens.
pub fn prompt_message(num: u32, total: u32, secs: u64, web: bool) -> (out: String)
    ensures
        out@ == prompt_text(num as nat, total as nat, secs as nat, web),
        out@ == "🌍 Guess "@ + (text::decimal(num as nat) + "/"@ + text::decimal(total as nat))
            + " | ⏳ "@ + clock::duration_text(secs as nat) + (if web {
            ""@
        } else {
            "\n📍 Where is this? Type: **!guess** city, country, or lat,lon"@
        }),
{
    let mut out = text::owned("🌍 Guess ");
    push_fraction(&mut out, num as u128, total as u128);
    out.append(" | ⏳ ");
    out.append(clock::format_duration(secs).as_str());
    push_guess_hint(&mut out, web);
    out
}

/// The countdown message while the time runs.
pub open spec fn countdown_text(
    num: nat,
    total: nat,
    remaining: nat,
    total_secs: nat,
    web: bool,
) -> Seq<char> {
    "🌍 Guess "@ + fraction(num, total) + " | ⏳ "@ + clock::duration_text(remaining) + "  "@
        + clock::bar_text(clock::time_cells(remaining, total_secs), 10) + guess_hint(web)
}

/// The countdown message while the time runs.
pub fn countdown_message(
    num: u32,
    total: u32,
    remaining: u64,
    total_secs: u64,
    web: bool,
) -> (out: String)
    ensures
        out@ == countdown_text(
            num as nat,
            total as nat,
            remaining as nat,
            total_secs as nat,
            web,
        ),
        text::occurs_at(
            out@,
            "🌍 Guess "@ + (text::decimal(num as nat) + "/"@ + text::decimal(total as nat))
                + " | ⏳ "@ + clock::duration_text(remaining as nat),
            0,
        ),
{
    let mut out = text::owned("🌍 Guess ");
    push_fraction(&mut out, num as u128, total as u128);
    out.append(" | ⏳ ");
    out.append(clock::format_duration(remaining).as_str());
    let ghost head = out@;
    out.append("  ");
    out.append(clock::time_bar(remaining, total_secs).as_str());
    push_guess_hint(&mut out, web);
    assert(out@.subrange(0, head.len() as int) =~= head);
    out
}

/// The countdown message when everybody has answered.
pub fn all_in_message(num: u32, total: u32) -> (out: String)
    ensures
        out@ == "🌍 Guess "@ + fraction(num as nat, total as nat) + " | ⚡ All guesses in!"@,
        out@ == "🌍 Guess "@ + (text::decimal(num as nat) + "/"@ + text::decimal(total as nat))
            + " | ⚡ All guesses in!"@,
{
    let mut out = text::owned("🌍 Guess ");
    push_fraction(&mut out, num as u128, total as u128);
    out.append(" | ⚡ All guesses in!");
    out
}

/// The message that a guess is skipped.
pub fn skipped_message(num: u32, total: u32) -> (out: String)
    ensures
        out@ == "⚠️ Guess "@ + (text::decimal(num as nat) + "/"@ + text::decimal(total as nat))
            + " skipped · failed to deliver the image to Matrix (see logs)."@,
        out@ == "⚠️ Guess "@ + fraction(num as nat, total as nat)
            + " skipped · failed to deliver the image to Matrix (see logs)."@,
{
    let mut out = text::owned("⚠️ Guess ");
    push_fraction(&mut out, num as u128, total as u128);
    out.append(" skipped · failed to deliver the image to Matrix (see logs).");
    out
}

// ── Links ────────────────────────────────────────────────────────────────────

/// Whether a text has the outer form of a user identifier, "@local:server".
pub open spec fn is_user_id(s: Seq<char>) -> bool {
    s.len() > 0 && s[0] == '@' && text::find_from(s, seq![':'], 0) is Some
}

/// The part of a user identifier between the at sign and the first colon.
pub open spec fn local_name(s: Seq<char>) -> Seq<char> {
    s.subrange(1, text::find_from(s, seq![':'], 0)->0)
}

/// Whether every text has the outer form of a user identifier.
pub open spec fn all_user_ids(ids: Seq<String>) -> bool {
    forall|i: int| 0 <= i < ids.len() ==> is_user_id((#[trigger] ids[i])@)
}

/// The local part of a user identifier.
pub fn localpart(id: &str) -> (out: String)
    requires
        is_user_id(id@),
    ensures
        out@ == local_name(id@),
{
    let v = text::chars_of(id);
    let colon: Vec<char> = vec![':'];
    assert(colon@ =~= seq![':']);
    proof {
        text::lemma_find_from(id@, seq![':'], 0);
        assert(id@.subrange(0, 1)[0] == '@');
    }
    match text::find_chars(&v, &colon, 0) {
        Some(p) => {
            assert(p >= 1) by {
                if p == 0 {
                    assert(id@.subrange(0, 1) == seq![':']);
                    assert(seq![':'][0] == ':');
                }
            }
            text::string_of(&v, 1, p)
        },
        None => String::new(),
    }
}

/// The local part of "@local:server" is what stands between the at sign and the colon.
pub proof fn law_local_parts(local: Seq<char>, server: Seq<char>)
    requires
        !local.contains(':'),
    ensures
        is_user_id(seq!['@'] + local + seq![':'] + server),
        local_name(seq!['@'] + local + seq![':'] + server) == local,
{
    let s = seq!['@'] + local + seq![':'] + server;
    text::lemma_find_from(s, seq![':'], 0);
    let at = (local.len() + 1) as int;
    assert(s.subrange(at, at + 1) =~= seq![':']);
    assert(text::occurs_at(s, seq![':'], at));
    let p = text::find_from(s, seq![':'], 0)->0;
    assert(s.subrange(p, p + 1)[0] == seq![':'][0]);
    assert(s[0] == '@');
    if p < at {
        assert(local[p - 1] == ':');
        assert(local.contains(':'));
    }
    assert(s.subrange(1, at) =~= local);
}

/// The link of one player: the map page with the player's token, or where there
/// is no map page the public map in the player's language.
pub open spec fn link_text(id: Seq<char>, web_url: Option<Seq<char>>, token_or_lang: Seq<char>) -> Seq<
    char,
> {
    match web_url {
        Some(url) => "[🗺️ "@ + local_name(id) + "]("@ + url + "/g/"@ + token_or_lang + ")"@,
        None => "[🗺️ "@ + local_name(id)
            + "](https://polynomialdivision.github.io/geo-picker/?lang="@ + token_or_lang + ")"@,
    }
}

pub(crate) fn player_link(id: &str, web_url: Option<&str>, token_or_lang: &str) -> (out: String)
    requires
        is_user_id(id@),
    ensures
        out@ == link_text(
            id@,
            text::opt_text(web_url),
            token_or_lang@,
        ),
        web_url matches Some(url) ==> out@ == "[🗺️ "@ + local_name(id@) + "]("@ + url@ + "/g/"@
            + token_or_lang@ + ")"@,
        web_url is None ==> out@ == "[🗺️ "@ + local_name(id@)
            + "](https://polynomialdivision.github.io/geo-picker/?lang="@ + token_or_lang@ + ")"@,
{
    let mut out = text::owned("[🗺️ ");
    out.append(localpart(id).as_str());
    match web_url {
        Some(url) => {
            out.append("](");
            out.append(url);
            out.append("/g/");
        },
        None => {
            out.append("](https://polynomialdivision.github.io/geo-picker/?lang=");
        },
    }
    out.append(token_or_lang);
    out.append(")");
    out
}

/// The links of the first `k` players.
pub open spec fn link_texts(
    ids: Seq<String>,
    web_url: Option<Seq<char>>,
    extras: Seq<String>,
    k: nat,
) -> Seq<Seq<char>> {
    Seq::new(k, |i: int| link_text(ids[i]@, web_url, extras[i]@))
}

/// The message with the links of all players. `extras` holds for each player
/// the token, or the language where there is no map page.
pub fn links_line(ids: &Vec<String>, web_url: Option<&str>, extras: &Vec<String>) -> (out: String)
    requires
        ids@.len() == extras@.len(),
        all_user_ids(ids@),
    ensures
        out@ == text::joined(
            link_texts(
                ids@,
                text::opt_text(web_url),
                extras@,
                ids@.len(),
            ),
            "  ·  "@,
        ),
        exists|parts: Seq<Seq<char>>|
            out@ == #[trigger] text::joined(parts, "  ·  "@) && parts.len() == ids@.len()
                && forall|i: int|
                0 <= i < ids@.len() ==> (#[trigger] parts[i]) == "[🗺️ "@ + local_name(ids@[i]@) + (
                match web_url {
                    Some(u) => "]("@ + u@ + "/g/"@,
                    None => "](https://polynomialdivision.github.io/geo-picker/?lang="@,
                }) + extras@[i]@ + ")"@,
{
    let ghost url = text::opt_text(web_url);
    let mut parts: Vec<String> = Vec::new();
    let mut i: usize = 0;
    while i < ids.len()
        invariant
            i <= ids@.len(),
            ids@.len() == extras@.len(),
            all_user_ids(ids@),
            url == text::opt_text(web_url),
            text::views(parts@) == link_texts(ids@, url, extras@, i as nat),
        decreases ids@.len() - i,
    {
        assert(is_user_id(ids@[i as int]@));
        let ghost before = text::views(parts@);
        parts.push(player_link(ids[i].as_str(), web_url, extras[i].as_str()));
        assert(text::views(parts@) =~= before.push(link_text(ids@[i as int]@, url, extras@[i as int]@)));
        i = i + 1;
        assert(text::views(parts@) =~= link_texts(ids@, url, extras@, i as nat));
    }
    text::join(&parts, "  ·  ")
}

// ── Ranking ──────────────────────────────────────────────────────────────────

/// An answer with its distance from the target and its points.
pub struct ScoredGuess {
    pub user_id: String,
    pub guess: FreeGuess,
    pub dist: F64Bits,
    pub score: i64,
}

/// Whether `a` ranks before `b` or ties with it: more points first, then the
/// smaller distance, then the user identifier.
pub open spec fn ranks_before(a: ScoredGuess, b: ScoredGuess) -> bool {
    if a.score != b.score {
        a.score > b.score
    } else if !a.dist.is_nan() && !b.dist.is_nan() && a.dist.rank() != b.dist.rank() {
        a.dist.rank() < b.dist.rank()
    } else {
        text::text_le(a.user_id@, b.user_id@)
    }
}

impl Ranked for ScoredGuess {
    open spec fn comparable(&self) -> bool {
        !self.dist.is_nan()
    }

    open spec fn before_eq(&self, other: &Self) -> bool {
        ranks_before(*self, *other)
    }

    proof fn order_is_total(a: &Self, b: &Self) {
        text::lemma_text_le_total(a.user_id@, b.user_id@);
    }

    proof fn order_is_transitive(a: &Self, b: &Self, c: &Self) {
        if text::text_le(a.user_id@, b.user_id@) && text::text_le(b.user_id@, c.user_id@) {
            text::lemma_text_le_transitive(a.user_id@, b.user_id@, c.user_id@);
        }
    }

    fn goes_before(&self, other: &Self) -> (r: bool) {
        if self.score != other.score {
            self.score > other.score
        } else if !self.dist.not_a_number() && !other.dist.not_a_number() && self.dist.rank_of()
            != other.dist.rank_of() {
            self.dist.rank_of() < other.dist.rank_of()
        } else {
            text::text_at_most(self.user_id.as_str(), other.user_id.as_str())
        }
    }
}

/// No player occurs twice.
pub open spec fn distinct_players(s: Seq<ScoredGuess>) -> bool {
    forall|i: int, j: int|
        #![trigger s[i], s[j]]
        0 <= i < s.len() && 0 <= j < s.len() && s[i].user_id@ == s[j].user_id@ ==> i == j
}

/// Puts the answers in the order of their rank.
pub fn rank_guesses(scored: Vec<ScoredGuess>) -> (r: Vec<ScoredGuess>)
    ensures
        sort::is_stable_sort(scored@, r@),
        r@.to_multiset() == scored@.to_multiset(),
        (forall|i: int| 0 <= i < scored@.len() ==> !(#[trigger] scored@[i]).dist.is_nan())
            ==> forall|i: int, j: int|
            #![trigger r@[i], r@[j]]
            0 <= i < j < r@.len() ==> {
                let a = r@[i];
                let b = r@[j];
                ||| a.score > b.score
                ||| a.score == b.score && a.dist.rank() < b.dist.rank()
                ||| a.score == b.score && a.dist.rank() == b.dist.rank() && text::text_le(
                    a.user_id@,
                    b.user_id@,
                )
            },
{
    let ghost input = scored@;
    let r = sort::sort_stable(scored);
    proof {
        if forall|i: int| 0 <= i < input.len() ==> !(#[trigger] input[i]).dist.is_nan() {
            assert(sort::all_comparable(input)) by {
                assert forall|i: int| 0 <= i < input.len() implies (
                #[trigger] input[i]).comparable() by {
                    assert(!input[i].dist.is_nan());
                }
            }
            assert forall|i: int, j: int|
                #![trigger r@[i], r@[j]]
                0 <= i < j < r@.len() implies {
                let a = r@[i];
                let b = r@[j];
                ||| a.score > b.score
                ||| a.score == b.score && a.dist.rank() < b.dist.rank()
                ||| a.score == b.score && a.dist.rank() == b.dist.rank() && text::text_le(
                    a.user_id@,
                    b.user_id@,
                )
            } by {
                assert(r@[i].before_eq(&r@[j]));
                sort::lemma_same_members(input, r@);
                assert(input.contains(r@[i]) && input.contains(r@[j]));
                let p = choose|p: int| 0 <= p < input.len() && input[p] == r@[i];
                let q = choose|q: int| 0 <= q < input.len() && input[q] == r@[j];
                assert(!input[p].dist.is_nan() && !input[q].dist.is_nan());
            }
        }
    }
    r
}

/// The ranking does not depend on the order in which the answers came in.
pub proof fn law_ranking_ignores_arrival_order(
    a: Seq<ScoredGuess>,
    b: Seq<ScoredGuess>,
    x: Seq<ScoredGuess>,
    y: Seq<ScoredGuess>,
)
    requires
        a.to_multiset() == b.to_multiset(),
        sort::all_comparable(a),
        distinct_players(a),
        sort::is_stable_sort(a, x),
        sort::is_stable_sort(b, y),
    ensures
        x == y,
{
    broadcast use vstd::seq_lib::group_to_multiset_ensures;

    assert forall|i: int| 0 <= i < b.len() implies (#[trigger] b[i]).comparable() by {
        assert(b.contains(b[i]));
        assert(a.to_multiset().count(b[i]) > 0);
        assert(a.contains(b[i]));
    }
    assert forall|i: int, j: int|
        #![trigger x[i], x[j]]
        0 <= i < x.len() && 0 <= j < x.len() && sort::tied(x[i], x[j]) implies x[i] == x[j] by {
        assert(x.contains(x[i]) && x.contains(x[j]));
        assert(a.to_multiset().count(x[i]) > 0 && a.to_multiset().count(x[j]) > 0);
        assert(a.contains(x[i]) && a.contains(x[j]));
        let p = choose|p: int| 0 <= p < a.len() && a[p] == x[i];
        let q = choose|q: int| 0 <= q < a.len() && a[q] == x[j];
        text::lemma_text_le_antisymmetric(x[i].user_id@, x[j].user_id@);
        assert(a[p].user_id@ == a[q].user_id@);
    }
    sort::lemma_sorted_arrangement_is_unique(x, y);
}

/// The points of a player, 0 where there are none.
pub open spec fn points(scores: Map<Seq<char>, i64>, user: Seq<char>) -> int {
    if scores.dom().contains(user) {
        scores[user] as int
    } else {
        0
    }
}

/// Adds the points of one guess to the points of the round.
pub fn add_scores(scores: &mut StrMap<i64>, scored: &Vec<ScoredGuess>)
    requires
        distinct_players(scored@),
        forall|i: int|
            0 <= i < scored@.len() ==> i64::MIN <= points(
                old(scores)@,
                (#[trigger] scored@[i]).user_id@,
            ) + scored@[i].score <= i64::MAX,
    ensures
        forall|i: int|
            0 <= i < scored@.len() ==> final(scores)@.dom().contains(
                (#[trigger] scored@[i]).user_id@,
            ) && final(scores)@[scored@[i].user_id@] == points(old(scores)@, scored@[i].user_id@)
                + scored@[i].score,
        forall|i: int|
            0 <= i < scored@.len() && !old(scores)@.dom().contains((#[trigger] scored@[i]).user_id@)
                ==> final(scores)@[scored@[i].user_id@] == scored@[i].score,
        forall|i: int|
            0 <= i < scored@.len() && old(scores)@.dom().contains((#[trigger] scored@[i]).user_id@)
                ==> final(scores)@[scored@[i].user_id@] == old(scores)@[scored@[i].user_id@]
                + scored@[i].score,
        forall|u: Seq<char>|
            !(exists|i: int| 0 <= i < scored@.len() && (#[trigger] scored@[i]).user_id@ == u) ==> {
                &&& #[trigger] final(scores)@.dom().contains(u) == old(scores)@.dom().contains(u)
                &&& final(scores)@.dom().contains(u) ==> final(scores)@[u] == old(scores)@[u]
            },
{
    let mut i: usize = 0;
    while i < scored.len()
        invariant
            i <= scored@.len(),
            distinct_players(scored@),
            forall|k: int|
                0 <= k < scored@.len() ==> i64::MIN <= points(
                    old(scores)@,
                    (#[trigger] scored@[k]).user_id@,
                ) + scored@[k].score <= i64::MAX,
            forall|k: int|
                0 <= k < i ==> scores@.dom().contains((#[trigger] scored@[k]).user_id@)
                    && scores@[scored@[k].user_id@] == points(old(scores)@, scored@[k].user_id@)
                    + scored@[k].score,
            forall|u: Seq<char>|
                !(exists|k: int| 0 <= k < i && (#[trigger] scored@[k]).user_id@ == u) ==> {
                    &&& #[trigger] scores@.dom().contains(u) == old(scores)@.dom().contains(u)
                    &&& scores@.dom().contains(u) ==> scores@[u] == old(scores)@[u]
                },
        decreases scored@.len() - i,
    {
        let ghost before = scores@;
        let g = &scored[i];
        let ghost u0 = scored@[i as int].user_id@;
        proof {
            assert(!(exists|k: int| 0 <= k < i && (#[trigger] scored@[k]).user_id@ == u0)) by {
                if exists|k: int| 0 <= k < i && (#[trigger] scored@[k]).user_id@ == u0 {
                    let k = choose|k: int| 0 <= k < i && (#[trigger] scored@[k]).user_id@ == u0;
                    assert(scored@[k].user_id@ == scored@[i as int].user_id@);
                }
            }
            assert(scores@.dom().contains(u0) == old(scores)@.dom().contains(u0));
        }
        let had: i64 = match scores.get(g.user_id.as_str()) {
            Some(p) => *p,
            None => 0,
        };
        assert(had == points(old(scores)@, u0));
        scores.insert(g.user_id.clone(), had + g.score);
        proof {
            assert forall|k: int| 0 <= k < i + 1 implies scores@.dom().contains(
                (#[trigger] scored@[k]).user_id@,
            ) && scores@[scored@[k].user_id@] == points(old(scores)@, scored@[k].user_id@)
                + scored@[k].score by {
                if k < i {
                    assert(scored@[k].user_id@ != u0);
                }
            }
            assert forall|u: Seq<char>|
                !(exists|k: int| 0 <= k < i + 1 && (#[trigger] scored@[k]).user_id@ == u) implies {
                &&& #[trigger] scores@.dom().contains(u) == old(scores)@.dom().contains(u)
                &&& scores@.dom().contains(u) ==> scores@[u] == old(scores)@[u]
            } by {
                assert(u != u0) by {
                    if u == u0 {
                        assert(scored@[i as int].user_id@ == u);
                    }
                }
                assert(!(exists|k: int| 0 <= k < i && (#[trigger] scored@[k]).user_id@ == u)) by {
                    if exists|k: int| 0 <= k < i && (#[trigger] scored@[k]).user_id@ == u {
                        let k = choose|k: int| 0 <= k < i && (#[trigger] scored@[k]).user_id@ == u;
                        assert(0 <= k < i + 1 && scored@[k].user_id@ == u);
                    }
                }
                assert(before.dom().contains(u) == scores@.dom().contains(u));
            }
        }
        i = i + 1;
    }
}

// ── Missed guesses ───────────────────────────────────────────────────────────

/// Those of the first `k` players who have not answered.
pub open spec fn unanswered(
    players: Seq<Seq<char>>,
    answered: Set<Seq<char>>,
    k: int,
) -> Seq<Seq<char>>
    decreases k,
{
    if k <= 0 {
        Seq::empty()
    } else if answered.contains(players[k - 1]) {
        unanswered(players, answered, k - 1)
    } else {
        unanswered(players, answered, k - 1).push(players[k - 1])
    }
}

/// Everybody the guess counts for: who joined, and who answered earlier in the
/// round without having joined.
pub open spec fn roster(joined: Seq<Seq<char>>, scored: Seq<Seq<char>>, k: int) -> Seq<Seq<char>>
    decreases k,
{
    if k <= 0 {
        joined
    } else if joined.contains(scored[k - 1]) {
        roster(joined, scored, k - 1)
    } else {
        roster(joined, scored, k - 1).push(scored[k - 1])
    }
}

/// Who missed the guess: everybody it counts for who has not answered. `scores`
/// holds the points of the round so far.
pub fn missed_players(joined: &Vec<String>, scores: &StrMap<i64>, game: &ActiveGame) -> (r: Vec<
    String,
>)
    ensures
        ({
            let all = roster(text::views(joined@), scores.keys(), scores.keys().len() as int);
            text::views(r@) == unanswered(all, game.mode.answers().dom(), all.len() as int)
        }),
        forall|u: Seq<char>| #[trigger]
            text::views(r@).contains(u) <==> (text::views(joined@).contains(u)
                || scores@.dom().contains(u)) && !game.mode.answers().dom().contains(u),
{
    let ghost start = text::views(joined@);
    let ghost keys = scores.keys();
    let mut all: Vec<String> = Vec::new();
    let mut i: usize = 0;
    while i < joined.len()
        invariant
            i <= joined@.len(),
            text::views(all@) == text::views(joined@).take(i as int),
        decreases joined@.len() - i,
    {
        let ghost before = text::views(all@);
        all.push(joined[i].clone());
        assert(text::views(all@) =~= before.push(joined@[i as int]@));
        assert(text::views(joined@).take(i as int + 1) =~= text::views(joined@).take(i as int).push(
            text::views(joined@)[i as int],
        ));
        i = i + 1;
    }
    assert(text::views(joined@).take(joined@.len() as int) =~= start);
    let n: usize = scores.len();
    let mut j: usize = 0;
    while j < n
        invariant
            j <= n,
            n == keys.len(),
            keys == scores.keys(),
            scores@.dom() == keys.to_set(),
            start == text::views(joined@),
            text::views(all@) == roster(start, keys, j as int),
        decreases n - j,
    {
        let (user, _) = scores.entry(j);
        let known = round::has_id(joined, user.as_str());
        if !known {
            let ghost before = text::views(all@);
            all.push(user.clone());
            assert(text::views(all@) =~= before.push(keys[j as int]));
            assert(!start.contains(keys[j as int]));
        } else {
            assert(start.contains(keys[j as int]));
        }
        j = j + 1;
    }
    let ghost everybody = text::views(all@);
    assert(everybody == roster(start, keys, keys.len() as int));
    let ghost answered = game.mode.answers().dom();
    let mut r: Vec<String> = Vec::new();
    let mut m: usize = 0;
    assert(text::views(r@) =~= unanswered(everybody, answered, 0));
    while m < all.len()
        invariant
            m <= all@.len(),
            everybody == text::views(all@),
            everybody == roster(start, keys, keys.len() as int),
            start == text::views(joined@),
            keys == scores.keys(),
            scores@.dom() == keys.to_set(),
            answered == game.mode.answers().dom(),
            text::views(r@) == unanswered(everybody, answered, m as int),
        decreases all@.len() - m,
    {
        assert(everybody[m as int] == all@[m as int]@);
        if game.answer_of(all[m].as_str()).is_none() {
            let ghost before = text::views(r@);
            r.push(all[m].clone());
            assert(text::views(r@) =~= before.push(everybody[m as int]));
        }
        m = m + 1;
    }
    proof {
        assert forall|u: Seq<char>| #[trigger]
            text::views(r@).contains(u) <==> (start.contains(u) || scores@.dom().contains(u))
                && !answered.contains(u) by {
            law_missed_players_are_those_without_answer(everybody, answered, u);
            lemma_roster(start, keys, keys.len() as int, u);
            assert(keys.take(keys.len() as int) =~= keys);
            assert(scores@.dom().contains(u) == keys.contains(u));
        }
    }
    r
}

/// A guess counts for everybody who joined and everybody who has points.
proof fn lemma_roster(joined: Seq<Seq<char>>, scored: Seq<Seq<char>>, k: int, player: Seq<char>)
    requires
        0 <= k <= scored.len(),
    ensures
        roster(joined, scored, k).contains(player) == (joined.contains(player) || scored.take(
            k,
        ).contains(player)),
    decreases k,
{
    if k > 0 {
        lemma_roster(joined, scored, k - 1, player);
        assert(scored.take(k) =~= scored.take(k - 1).push(scored[k - 1]));
        lemma_push_contains(scored.take(k - 1), scored[k - 1], player);
        lemma_push_contains(roster(joined, scored, k - 1), scored[k - 1], player);
    } else {
        assert(scored.take(0) =~= Seq::empty());
    }
}

/// Nobody who answered is said to have missed the guess, and nobody else of those
/// it counts for is left out: skipping a guess leaves a trace.
pub proof fn law_missed_players_are_those_without_answer(
    players: Seq<Seq<char>>,
    answered: Set<Seq<char>>,
    player: Seq<char>,
)
    ensures
        unanswered(players, answered, players.len() as int).contains(player) == (players.contains(
            player,
        ) && !answered.contains(player)),
{
    lemma_unanswered(players, answered, players.len() as int, player);
    assert(players.take(players.len() as int) =~= players);
}

proof fn lemma_unanswered(
    players: Seq<Seq<char>>,
    answered: Set<Seq<char>>,
    k: int,
    player: Seq<char>,
)
    requires
        0 <= k <= players.len(),
    ensures
        unanswered(players, answered, k).contains(player) == (players.take(k).contains(player)
            && !answered.contains(player)),
    decreases k,
{
    if k > 0 {
        lemma_unanswered(players, answered, k - 1, player);
        let a = players.take(k - 1);
        let b = players.take(k);
        assert(b =~= a.push(players[k - 1]));
        lemma_push_contains(a, players[k - 1], player);
        lemma_push_contains(unanswered(players, answered, k - 1), players[k - 1], player);
    }
}

proof fn lemma_push_contains(s: Seq<Seq<char>>, x: Seq<char>, y: Seq<char>)
    ensures
        s.push(x).contains(y) == (s.contains(y) || x == y),
{
    if s.contains(y) {
        let i = choose|i: int| 0 <= i < s.len() && s[i] == y;
        assert(s.push(x)[i] == y);
    }
    if x == y {
        assert(s.push(x)[s.len() as int] == y);
    }
}

/// Gives 0 points to every player who has none yet.
pub fn count_missed(scores: &mut StrMap<i64>, missed: &Vec<String>)
    ensures
        forall|u: Seq<char>| #[trigger]
            final(scores)@.dom().contains(u) == (old(scores)@.dom().contains(u) || text::views(
                missed@,
            ).contains(u)),
        forall|u: Seq<char>|
            final(scores)@.dom().contains(u) ==> #[trigger] final(scores)@[u] == points(
                old(scores)@,
                u,
            ),
        forall|u: Seq<char>|
            old(scores)@.dom().contains(u) ==> #[trigger] final(scores)@[u] == old(scores)@[u],
        forall|u: Seq<char>|
            text::views(missed@).contains(u) && !old(scores)@.dom().contains(u)
                ==> #[trigger] final(scores)@[u] == 0,
{
    let ghost before = scores@;
    let ghost list = text::views(missed@);
    let mut i: usize = 0;
    while i < missed.len()
        invariant
            i <= missed@.len(),
            list == text::views(missed@),
            before == old(scores)@,
            forall|u: Seq<char>| #[trigger]
                scores@.dom().contains(u) == (before.dom().contains(u) || list.take(
                    i as int,
                ).contains(u)),
            forall|u: Seq<char>|
                scores@.dom().contains(u) ==> #[trigger] scores@[u] == points(before, u),
        decreases missed@.len() - i,
    {
        let ghost here = scores@;
        let ghost user = list[i as int];
        if !scores.contains_key(missed[i].as_str()) {
            scores.insert(missed[i].clone(), 0);
        }
        proof {
            let a = list.take(i as int);
            let b = list.take(i as int + 1);
            assert(b =~= a.push(user));
            assert forall|u: Seq<char>| #[trigger] scores@.dom().contains(u) == (
            before.dom().contains(u) || b.contains(u)) by {
                lemma_push_contains(a, user, u);
                assert(here.dom().contains(u) == (before.dom().contains(u) || a.contains(u)));
            }
        }
        i = i + 1;
    }
    assert(list.take(list.len() as int) =~= list);
}

} // verus!
