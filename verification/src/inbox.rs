//! What comes in from the room: invitations, messages and reactions.

use vstd::prelude::*;

use crate::commands;
use crate::lang;
use crate::round;
use crate::state::PendingJoin;
use crate::state::State;
use crate::state::UtcInstant;
use crate::text;

verus! {

// ── Invitations ──────────────────────────────────────────────────────────────

/// Whether an invitation is accepted: anybody may invite where nobody is listed.
pub fn accepts_invite(allowed: &Vec<String>, sender: &str) -> (r: bool)
    ensures
        r == (allowed@.len() == 0 || text::views(allowed@).contains(sender@)),
{
    allowed.len() == 0 || round::has_id(allowed, sender)
}

/// The servers through which a room is joined: that of the sender, then that of
/// the room where it is another one.
pub fn join_via(sender_server: &str, room_server: Option<&str>) -> (r: Vec<String>)
    ensures
        text::views(r@) == if text::opt_text(room_server) is None || text::opt_text(room_server)
            == Some(sender_server@) {
            seq![sender_server@]
        } else {
            seq![sender_server@, text::opt_text(room_server)->0]
        },
{
    let mut r: Vec<String> = Vec::new();
    r.push(text::owned(sender_server));
    assert(text::views(r@) =~= seq![sender_server@]);
    if let Some(s) = room_server {
        if !text::same_text(s, sender_server) {
            r.push(text::owned(s));
            assert(text::views(r@) =~= seq![sender_server@, s@]);
        }
    }
    r
}

// ── Messages ─────────────────────────────────────────────────────────────────

/// Whether an event matters: somebody else sent it, in the room of the game, and
/// the bot is there.
pub fn concerns_game(sender: &str, bot: &str, joined: bool, room: &str, game_room: &str) -> (r: bool)
    ensures
        r == (sender@ != bot@ && joined && room@ == game_room@),
{
    !text::same_text(sender, bot) && joined && text::same_text(room, game_room)
}

/// What a message is.
pub enum Incoming {
    /// Not for the bot.
    Ignored,
    /// A guess, with the place that it names.
    Guess(String),
    /// A command, without the space around it.
    Command(String),
}

/// What an `Incoming` holds.
pub enum IncomingView {
    Ignored,
    Guess(Seq<char>),
    Command(Seq<char>),
}

impl View for Incoming {
    type V = IncomingView;

    open spec fn view(&self) -> IncomingView {
        match self {
            Incoming::Ignored => IncomingView::Ignored,
            Incoming::Guess(q) => IncomingView::Guess(q@),
            Incoming::Command(c) => IncomingView::Command(c@),
        }
    }
}

/// What follows the first `n` characters; nothing where there are not that many.
pub open spec fn after_first(s: Seq<char>, n: int) -> Seq<char> {
    if n <= s.len() {
        s.skip(n)
    } else {
        Seq::empty()
    }
}

/// What a trimmed message is, given its lower-case form. Only what begins with an
/// exclamation mark is for the bot; a guess is introduced by `!guess` and a space.
pub open spec fn sorted_message(b: Seq<char>, lower: Seq<char>) -> IncomingView {
    if !text::occurs_at(b, "!"@, 0) {
        IncomingView::Ignored
    } else if text::occurs_at(lower, "!guess "@, 0) {
        let query = text::trimmed(after_first(b, "!guess "@.len() as int));
        if query.len() == 0 {
            IncomingView::Ignored
        } else {
            IncomingView::Guess(query)
        }
    } else {
        IncomingView::Command(b)
    }
}

/// Tells trimmed messages apart, given their lower-case form.
pub fn sort_message(b: &str, lower: &str) -> (r: Incoming)
    ensures
        r@ == sorted_message(b@, lower@),
        b@.len() == 0 || b@[0] != '!' ==> r is Ignored,
        b@.len() > 0 && b@[0] == '!' && text::occurs_at(lower@, "!guess "@, 0) && b@.len() >= 7 ==> {
            let query = text::trimmed(b@.skip(7));
            &&& query.len() > 0 ==> r is Guess && r->Guess_0@ == query
            &&& query.len() == 0 ==> r is Ignored
        },
        b@.len() > 0 && b@[0] == '!' && !text::occurs_at(lower@, "!guess "@, 0) ==> r is Command
            && r->Command_0@ == b@,
{
    proof {
        reveal_strlit("!");
        reveal_strlit("!guess ");
        if b@.len() > 0 {
            assert(b@.subrange(0, 1)[0] == b@[0]);
            if b@[0] == '!' {
                assert(b@.subrange(0, 1) =~= "!"@);
            }
        }
    }
    if !text::starts_with(b, "!") {
        return Incoming::Ignored;
    }
    if text::starts_with(lower, "!guess ") {
        let v = text::chars_of(b);
        let n: usize = v.len();
        let from: usize = text::chars_of("!guess ").len();
        let query = if from <= n {
            assert(b@.skip(from as int) =~= b@.subrange(from as int, n as int));
            text::trim(text::string_of(&v, from, n).as_str())
        } else {
            assert(after_first(b@, from as int) =~= ""@) by {
                reveal_strlit("");
            }
            text::trim("")
        };
        if text::chars_of(query.as_str()).len() == 0 {
            Incoming::Ignored
        } else {
            Incoming::Guess(query)
        }
    } else {
        Incoming::Command(text::owned(b))
    }
}

/// What a message is; the case of the first word does not matter.
pub open spec fn incoming(body: Seq<char>) -> IncomingView {
    sorted_message(text::trimmed(body), commands::lowercase(text::trimmed(body)))
}

/// Tells guesses, commands and other messages apart.
pub fn read_message(body: &str) -> (r: Incoming)
    ensures
        r@ == incoming(body@),
{
    let b = text::trim(body);
    sort_message(b.as_str(), b.as_str().to_lowercase().as_str())
}

/// The message at the root of the thread in which a reply stands: that of the
/// thread the message is in, or the message itself.
pub fn thread_root(thread: Option<String>, event_id: String) -> (r: String)
    ensures
        r == match thread {
            Some(t) => t,
            None => event_id,
        },
{
    match thread {
        Some(t) => t,
        None => event_id,
    }
}

/// What became of a guess that was typed.
#[derive(Clone, Copy, Debug, PartialEq, Eq, Structural)]
pub enum GuessOutcome {
    /// There is no such place.
    NotFound,
    /// The guess counts.
    Recorded,
    /// The guess does not count.
    Refused,
}

/// The reply to a guess that was typed.
pub open spec fn guess_reply_text(
    outcome: GuessOutcome,
    sender: Seq<char>,
    query: Seq<char>,
) -> Seq<char> {
    match outcome {
        GuessOutcome::Recorded => "✅ "@ + sender + " — guess recorded for \""@ + query + "\""@,
        GuessOutcome::Refused => "❌ "@ + sender + " — you already submitted a guess"@,
        GuessOutcome::NotFound => "❓ "@ + sender + " — could not find \""@ + query
            + "\", try a different name"@,
    }
}

/// The reply to a guess that was typed.
pub fn guess_reply(outcome: GuessOutcome, sender: &str, query: &str) -> (out: String)
    ensures
        out@ == guess_reply_text(outcome, sender@, query@),
        outcome == GuessOutcome::Recorded ==> out@ == "✅ "@ + sender@ + " — guess recorded for \""@
            + query@ + "\""@,
        outcome == GuessOutcome::Refused ==> out@ == "❌ "@ + sender@
            + " — you already submitted a guess"@,
        outcome == GuessOutcome::NotFound ==> out@ == "❓ "@ + sender@ + " — could not find \""@
            + query@ + "\", try a different name"@,
{
    match outcome {
        GuessOutcome::Recorded => {
            let mut out = text::owned("✅ ");
            out.append(sender);
            out.append(" — guess recorded for \"");
            out.append(query);
            out.append("\"");
            out
        },
        GuessOutcome::Refused => {
            let mut out = text::owned("❌ ");
            out.append(sender);
            out.append(" — you already submitted a guess");
            out
        },
        GuessOutcome::NotFound => {
            let mut out = text::owned("❓ ");
            out.append(sender);
            out.append(" — could not find \"");
            out.append(query);
            out.append("\", try a different name");
            out
        },
    }
}

/// The reply to somebody who may not give a command.
pub fn refused_reply() -> (r: &'static str)
    ensures
        r@ == "❌ This command requires admin privileges."@,
{
    "❌ This command requires admin privileges."
}

// ── Joining ──────────────────────────────────────────────────────────────────

/// Who has opted in to the upcoming round.
pub struct JoinState {
    /// The message that asks who wants to play; absent when no join window is open.
    pub message_event_id: Option<String>,
    /// The emoji that the join message shows.
    pub join_emoji: String,
    /// Who has reacted, in the order of the reactions.
    pub participants: Vec<String>,
}

impl Default for JoinState {
    fn default() -> (r: Self)
        ensures
            r.message_event_id is None,
            r.join_emoji@ == "👍"@,
            r.participants@.len() == 0,
    {
        JoinState {
            message_event_id: None,
            join_emoji: text::owned("👍"),
            participants: Vec::new(),
        }
    }
}

/// A state in which only the languages of the players may differ.
pub open spec fn same_but_languages(a: State, b: State) -> bool {
    &&& a.cached_guesses == b.cached_guesses
    &&& a.created_at == b.created_at
    &&& a.last_game_dates == b.last_game_dates
    &&& a.pending_join == b.pending_join
    &&& a.scheduled_once == b.scheduled_once
    &&& a.schedule_overrides == b.schedule_overrides
    &&& a.active_round == b.active_round
}

impl JoinState {
    /// Whether a reaction to `event` with `key` joins the game.
    pub open spec fn counts(&self, event: Seq<char>, key: Seq<char>) -> bool {
        self.message_event_id matches Some(id) && id@ == event && lang::flag_language(key) is Some
    }

    /// Opens the join window.
    pub fn open_window(&mut self, event_id: String)
        ensures
            final(self).message_event_id == Some(event_id),
            final(self).join_emoji == old(self).join_emoji,
            final(self).participants@.len() == 0,
    {
        self.message_event_id = Some(event_id);
        self.participants = Vec::new();
    }

    /// Takes up a join window that a restart interrupted. Where the identifier of
    /// its message cannot be read, `event_id` is absent and the one before stays.
    pub fn restore(&mut self, event_id: Option<String>, pj: &PendingJoin)
        ensures
            final(self).message_event_id == match event_id {
                Some(id) => Some(id),
                None => old(self).message_event_id,
            },
            final(self).join_emoji@ == pj.join_emoji@,
            final(self).participants@.len() == 0,
    {
        if let Some(id) = event_id {
            self.message_event_id = Some(id);
        }
        self.join_emoji = text::owned(pj.join_emoji.as_str());
        self.participants = Vec::new();
    }

    /// Closes the join window and hands out who joined.
    pub fn close_window(&mut self) -> (participants: Vec<String>)
        ensures
            participants == old(self).participants,
            final(self).participants@.len() == 0,
            final(self).message_event_id is None,
            final(self).join_emoji == old(self).join_emoji,
    {
        self.message_event_id = None;
        let mut taken: Vec<String> = Vec::new();
        std::mem::swap(&mut taken, &mut self.participants);
        taken
    }

    /// Takes a reaction. A flag on the join message makes its sender a participant
    /// and sets the sender's language; nothing else changes anything. Says whether
    /// it did.
    pub fn react(&mut self, state: &mut State, event: &str, key: &str, sender: &str) -> (r: bool)
        ensures
            r == old(self).counts(event@, key@),
            r <==> old(self).message_event_id is Some && old(self).message_event_id->0@ == event@
                && lang::flag_language(key@) is Some,
            r ==> text::views(final(self).participants@).contains(sender@),
            r ==> final(state).user_langs@.dom().contains(sender@) && Some(
                final(state).user_langs@[sender@]@,
            ) == lang::flag_language(key@),
            final(self).message_event_id == old(self).message_event_id,
            final(self).join_emoji == old(self).join_emoji,
            same_but_languages(*final(state), *old(state)),
            !r ==> *final(state) == *old(state) && final(self).participants == old(
                self,
            ).participants,
            r ==> final(state).language(sender@) == lang::flag_language(key@)->0,
            forall|u: Seq<char>|
                u != sender@ ==> #[trigger] final(state).language(u) == old(state).language(u),
            r ==> text::views(final(self).participants@) == if text::views(
                old(self).participants@,
            ).contains(sender@) {
                text::views(old(self).participants@)
            } else {
                text::views(old(self).participants@).push(sender@)
            },
    {
        let here = match &self.message_event_id {
            Some(id) => text::same_text(id.as_str(), event),
            None => false,
        };
        if !here {
            return false;
        }
        match lang::flag_to_lang(key) {
            Some(code) => {
                state.user_langs.insert(text::owned(sender), text::owned(code));
                round::add_join_reaction(&mut self.participants, key, sender, None);
                true
            },
            None => false,
        }
    }
}

/// Whether a join window that a restart interrupted is still to be resumed: its
/// game has not begun.
pub fn still_ahead(pj: &PendingJoin, now: UtcInstant) -> (r: bool)
    ensures
        r == (pj.game_at_utc.secs > now.secs || (pj.game_at_utc.secs == now.secs
            && pj.game_at_utc.nanos > now.nanos)),
{
    pj.game_at_utc.secs > now.secs || (pj.game_at_utc.secs == now.secs && pj.game_at_utc.nanos
        > now.nanos)
}

} // verus!
