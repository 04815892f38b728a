//! What the bot remembers across restarts.

use std::collections::VecDeque;

use vstd::prelude::*;

use crate::sources::GeoImage;
use crate::str_map::StrMap;
use crate::text;

verus! {

/// A moment in time: seconds since 1970-01-01 UTC and nanoseconds past the second.
#[derive(Clone, Copy, Debug, PartialEq, Eq, Structural)]
pub struct UtcInstant {
    pub secs: i64,
    pub nanos: u32,
}

/// A calendar date as its day number: 1 is the first day of year 1.
#[derive(Clone, Copy, Debug, PartialEq, Eq, Structural)]
pub struct DayNumber {
    pub day: i32,
}

/// A round that is in progress, saved before each guess so that the bot can
/// resume after a restart.
pub struct ActiveRoundState {
    pub round_id: i64,
    /// 1-based: the guess currently being played.
    pub guess_num: u32,
    pub total_guesses: u32,
    pub current_image: GeoImage,
    /// Images not yet started.
    pub remaining_images: VecDeque<GeoImage>,
    pub guess_started_at: UtcInstant,
    pub answer_timeout_secs: u64,
    pub dm_participants: StrMap<ActiveDmParticipant>,
    /// Scores accumulated so far.
    pub round_scores: StrMap<i64>,
}

/// A player of the round in progress.
pub struct ActiveDmParticipant {
    pub dm_room_id: String,
    /// Event of the prompt message in the player's own room.
    pub prompt_event_id: Option<String>,
    /// Whether the player was told that the guess arrived.
    pub answer_acked: bool,
}

/// Everything that is saved.
pub struct State {
    /// Pre-fetched locations waiting to be used.
    pub cached_guesses: VecDeque<GeoImage>,
    /// Set on first boot.
    pub created_at: Option<UtcInstant>,
    /// Per-slot date of the last game. The key is the "HH:MM" text of the slot.
    pub last_game_dates: StrMap<DayNumber>,
    /// Present while players may join.
    pub pending_join: Option<PendingJoin>,
    /// One-time games.
    pub scheduled_once: Vec<ScheduledOnce>,
    /// Language of each player; absent means English.
    pub user_langs: StrMap<String>,
    /// Overrides of the recurring schedule.
    pub schedule_overrides: ScheduleOverrides,
    /// The round in progress, if any.
    pub active_round: Option<ActiveRoundState>,
}

/// The join window that is open.
pub struct PendingJoin {
    /// Event of the join message.
    pub event_id: String,
    pub join_emoji: String,
    /// Slot key ("12:00"), absent for one-time games.
    pub slot: Option<String>,
    /// When the game starts.
    pub game_at_utc: UtcInstant,
    /// How long (seconds) players have to submit answers.
    pub answer_timeout_secs: u64,
}

/// A one-time game.
pub struct ScheduledOnce {
    /// Start time as "HH:MM" in the configured time zone.
    pub game_time: String,
    /// The date on which this game starts.
    pub date: DayNumber,
    pub reminder_before_secs: Option<u64>,
    pub answer_timeout_secs: Option<u64>,
    pub guesses_per_round: Option<u32>,
}

/// Overrides of the recurring schedule. They sit between the overrides of a
/// single game and the configuration.
#[derive(Clone, Copy, Debug, PartialEq, Eq, Structural)]
pub struct ScheduleOverrides {
    pub guesses_per_round: Option<u32>,
    pub answer_timeout_secs: Option<u64>,
    pub photos_per_location: Option<usize>,
}

impl Default for ScheduleOverrides {
    fn default() -> (r: Self)
        ensures
            r.guesses_per_round is None,
            r.answer_timeout_secs is None,
            r.photos_per_location is None,
    {
        ScheduleOverrides {
            guesses_per_round: None,
            answer_timeout_secs: None,
            photos_per_location: None,
        }
    }
}

impl Default for ActiveDmParticipant {
    fn default() -> (r: Self)
        ensures
            r.dm_room_id@ == Seq::<char>::empty(),
            r.prompt_event_id is None,
            !r.answer_acked,
    {
        ActiveDmParticipant {
            dm_room_id: String::new(),
            prompt_event_id: None,
            answer_acked: false,
        }
    }
}

impl Default for State {
    fn default() -> (r: Self)
        ensures
            r.cached_guesses@.len() == 0,
            r.created_at is None,
            r.last_game_dates@ == Map::<Seq<char>, DayNumber>::empty(),
            r.pending_join is None,
            r.scheduled_once@.len() == 0,
            r.user_langs@ == Map::<Seq<char>, String>::empty(),
            r.schedule_overrides == (ScheduleOverrides {
                guesses_per_round: None,
                answer_timeout_secs: None,
                photos_per_location: None,
            }),
            r.active_round is None,
    {
        State {
            cached_guesses: VecDeque::new(),
            created_at: None,
            last_game_dates: StrMap::new(),
            pending_join: None,
            scheduled_once: Vec::new(),
            user_langs: StrMap::new(),
            schedule_overrides: ScheduleOverrides::default(),
            active_round: None,
        }
    }
}

/// What a `ScheduledOnce` holds.
#[verifier::ext_equal]
pub struct ScheduledOnceView {
    pub game_time: Seq<char>,
    pub date: DayNumber,
    pub reminder_before_secs: Option<u64>,
    pub answer_timeout_secs: Option<u64>,
    pub guesses_per_round: Option<u32>,
}

impl View for ScheduledOnce {
    type V = ScheduledOnceView;

    open spec fn view(&self) -> ScheduledOnceView {
        ScheduledOnceView {
            game_time: self.game_time@,
            date: self.date,
            reminder_before_secs: self.reminder_before_secs,
            answer_timeout_secs: self.answer_timeout_secs,
            guesses_per_round: self.guesses_per_round,
        }
    }
}

impl Clone for ScheduledOnce {
    fn clone(&self) -> (r: Self)
        ensures
            r@ == self@,
            r.game_time@ == self.game_time@ && r.date == self.date,
            r.reminder_before_secs == self.reminder_before_secs,
            r.answer_timeout_secs == self.answer_timeout_secs,
            r.guesses_per_round == self.guesses_per_round,
    {
        ScheduledOnce {
            game_time: self.game_time.clone(),
            date: self.date,
            reminder_before_secs: self.reminder_before_secs,
            answer_timeout_secs: self.answer_timeout_secs,
            guesses_per_round: self.guesses_per_round,
        }
    }
}

impl ScheduledOnce {
    /// Whether two entries are the same in every field.
    pub fn same_as(&self, other: &ScheduledOnce) -> (r: bool)
        ensures
            r == (self@ == other@),
            r <==> self.game_time@ == other.game_time@ && self.date == other.date
                && self.reminder_before_secs == other.reminder_before_secs
                && self.answer_timeout_secs == other.answer_timeout_secs && self.guesses_per_round
                == other.guesses_per_round,
    {
        text::same_text(self.game_time.as_str(), other.game_time.as_str()) && self.date
            == other.date && self.reminder_before_secs == other.reminder_before_secs
            && self.answer_timeout_secs == other.answer_timeout_secs && self.guesses_per_round
            == other.guesses_per_round
    }
}

impl State {
    /// The language of a player.
    pub open spec fn language(&self, user_id: Seq<char>) -> Seq<char> {
        if self.user_langs@.dom().contains(user_id) {
            self.user_langs@[user_id]@
        } else {
            "en"@
        }
    }

    /// The language that a player has chosen, English by default.
    pub fn language_of(&self, user_id: &str) -> (r: String)
        ensures
            r@ == self.language(user_id@),
            self.user_langs@.dom().contains(user_id@) ==> r@ == self.user_langs@[user_id@]@,
            !self.user_langs@.dom().contains(user_id@) ==> r@ == "en"@,
    {
        match self.user_langs.get(user_id) {
            Some(l) => l.clone(),
            None => text::owned("en"),
        }
    }

    /// Saves the join window that was opened.
    pub fn open_join(&mut self, window: PendingJoin)
        ensures
            *final(self) == (State { pending_join: Some(window), ..*old(self) }),
    {
        self.pending_join = Some(window);
    }

    /// Forgets the join window.
    pub fn close_join(&mut self)
        ensures
            *final(self) == (State { pending_join: None, ..*old(self) }),
    {
        self.pending_join = None;
    }

    /// Saves the round in progress.
    pub fn keep_round(&mut self, round: ActiveRoundState)
        ensures
            *final(self) == (State { active_round: Some(round), ..*old(self) }),
    {
        self.active_round = Some(round);
    }

    /// Forgets the round in progress.
    pub fn forget_round(&mut self)
        ensures
            *final(self) == (State { active_round: None, ..*old(self) }),
    {
        self.active_round = None;
    }
}

} // verus!
