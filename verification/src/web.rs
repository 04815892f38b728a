//! The map server: personal links, submissions and the status of the players.
//!
//! Each player of a guess gets a token. The page behind it shows a map; a
//! submission records the player's guess. The tokens of a guess are dropped
//! when it is over.

use vstd::prelude::*;

use crate::bits::F64Bits;
use crate::bits::INFINITY_64;
use crate::guess;
use crate::guess::ActiveGame;
use crate::guess::FreeGuess;
use crate::map_page::EXPIRED_PAGE;
use crate::map_page::MAP_PAGE;
use crate::state::State;
use crate::str_map::StrMap;
use crate::text;

verus! {

// ── Tokens ───────────────────────────────────────────────────────────────────

/// One record per player per guess.
pub struct GuessToken {
    pub user_id: String,
    pub round_id: i64,
    pub guess_num: u32,
    pub lang: String,
}

/// What a `GuessToken` holds.
#[verifier::ext_equal]
pub struct GuessTokenView {
    pub user_id: Seq<char>,
    pub round_id: i64,
    pub guess_num: u32,
    pub lang: Seq<char>,
}

impl View for GuessToken {
    type V = GuessTokenView;

    open spec fn view(&self) -> GuessTokenView {
        GuessTokenView {
            user_id: self.user_id@,
            round_id: self.round_id,
            guess_num: self.guess_num,
            lang: self.lang@,
        }
    }
}

/// How many characters a token has.
pub const TOKEN_LEN: usize = 24;

/// `rand`'s `Alphanumeric` distribution sampled with `thread_rng`: a letter from
/// a to z or A to Z, or a digit. Nothing is claimed of which one.
#[verifier::external_body]
fn random_alphanumeric() -> (c: char)
    ensures
        text::is_ascii_alnum(c),
{
    char::from(rand::Rng::sample(&mut rand::thread_rng(), rand::distributions::Alphanumeric))
}

/// Whether a text has the form of a token.
pub open spec fn is_token(s: Seq<char>) -> bool {
    s.len() == TOKEN_LEN && forall|i: int| 0 <= i < s.len() ==> text::is_ascii_alnum(#[trigger] s[i])
}

/// A new token.
pub fn generate_token() -> (t: String)
    ensures
        is_token(t@),
        t@.len() == 24,
        forall|i: int|
            0 <= i < t@.len() ==> ('0' <= #[trigger] t@[i] <= '9' || 'a' <= t@[i] <= 'z' || 'A'
                <= t@[i] <= 'Z'),
{
    let mut t = String::new();
    let mut i: usize = 0;
    while i < TOKEN_LEN
        invariant
            i <= TOKEN_LEN,
            t@.len() == i,
            forall|k: int| 0 <= k < t@.len() ==> text::is_ascii_alnum(#[trigger] t@[k]),
        decreases TOKEN_LEN - i,
    {
        t.push(random_alphanumeric());
        i = i + 1;
    }
    t
}

// ── Sessions ─────────────────────────────────────────────────────────────────

/// What the tokens of one guess share.
pub struct GuessSession {
    /// The message with the links, edited on each submission.
    pub links_event_id: String,
    /// The players in the order of the status line.
    pub participants: Vec<String>,
}

/// The sessions by round and guess number.
pub struct Sessions {
    entries: Vec<(i64, u32, GuessSession)>,
}

spec fn key_at(entries: Seq<(i64, u32, GuessSession)>, i: int) -> (i64, u32) {
    (entries[i].0, entries[i].1)
}

spec fn keys_distinct(entries: Seq<(i64, u32, GuessSession)>) -> bool {
    forall|i: int, j: int|
        #![trigger key_at(entries, i), key_at(entries, j)]
        0 <= i < j < entries.len() ==> key_at(entries, i) != key_at(entries, j)
}

spec fn holds(entries: Seq<(i64, u32, GuessSession)>, k: (i64, u32)) -> bool {
    exists|i: int| 0 <= i < entries.len() && #[trigger] key_at(entries, i) == k
}

spec fn session_map(entries: Seq<(i64, u32, GuessSession)>) -> Map<(i64, u32), GuessSession> {
    Map::new(
        |k: (i64, u32)| holds(entries, k),
        |k: (i64, u32)|
            entries[choose|i: int| 0 <= i < entries.len() && #[trigger] key_at(entries, i) == k].2,
    )
}

proof fn lemma_session_at(entries: Seq<(i64, u32, GuessSession)>, i: int)
    requires
        keys_distinct(entries),
        0 <= i < entries.len(),
    ensures
        session_map(entries).dom().contains(key_at(entries, i)),
        session_map(entries)[key_at(entries, i)] == entries[i].2,
{
    let k = key_at(entries, i);
    assert(holds(entries, k));
    let j = choose|j: int| 0 <= j < entries.len() && #[trigger] key_at(entries, j) == k;
    assert(key_at(entries, i) == key_at(entries, j));
    assert(i == j);
}

impl View for Sessions {
    type V = Map<(i64, u32), GuessSession>;

    closed spec fn view(&self) -> Map<(i64, u32), GuessSession> {
        session_map(self.entries@)
    }
}

impl Sessions {
    #[verifier::type_invariant]
    spec fn keys_differ(self) -> bool {
        keys_distinct(self.entries@)
    }

    /// No sessions.
    pub fn new() -> (s: Self)
        ensures
            s@ == Map::<(i64, u32), GuessSession>::empty(),
    {
        let s = Sessions { entries: Vec::new() };
        assert(s@ =~= Map::<(i64, u32), GuessSession>::empty());
        s
    }

    fn find(&self, round_id: i64, guess_num: u32) -> (r: Option<usize>)
        ensures
            r is Some == self@.dom().contains((round_id, guess_num)),
            r matches Some(i) ==> i < self.entries@.len() && key_at(self.entries@, i as int) == (
                round_id,
                guess_num,
            ),
    {
        let mut i: usize = 0;
        while i < self.entries.len()
            invariant
                i <= self.entries@.len(),
                forall|k: int|
                    0 <= k < i ==> #[trigger] key_at(self.entries@, k) != (round_id, guess_num),
            decreases self.entries@.len() - i,
        {
            if self.entries[i].0 == round_id && self.entries[i].1 == guess_num {
                assert(key_at(self.entries@, i as int) == (round_id, guess_num));
                return Some(i);
            }
            i = i + 1;
        }
        None
    }

    /// Whether there are none.
    pub fn is_empty(&self) -> (r: bool)
        ensures
            r == (self@.dom() =~= Set::<(i64, u32)>::empty()),
    {
        let n: usize = self.entries.len();
        proof {
            if n > 0 {
                assert(key_at(self.entries@, 0) == key_at(self.entries@, 0));
                assert(self@.dom().contains(key_at(self.entries@, 0)));
            }
        }
        n == 0
    }

    /// The session of a guess.
    pub fn get(&self, round_id: i64, guess_num: u32) -> (r: Option<&GuessSession>)
        ensures
            r is Some == self@.dom().contains((round_id, guess_num)),
            r matches Some(s) ==> *s == self@[(round_id, guess_num)],
    {
        match self.find(round_id, guess_num) {
            Some(i) => {
                proof {
                    use_type_invariant(self);
                    lemma_session_at(self.entries@, i as int);
                }
                Some(&self.entries[i].2)
            },
            None => None,
        }
    }

    /// Drops the session of a guess, if there is one.
    pub fn remove(&mut self, round_id: i64, guess_num: u32)
        ensures
            final(self)@ == old(self)@.remove((round_id, guess_num)),
    {
        let at = self.find(round_id, guess_num);
        proof {
            use_type_invariant(&*self);
        }
        let ghost before = self.entries@;
        match at {
            None => {
                assert(self@ =~= old(self)@.remove((round_id, guess_num)));
            },
            Some(i) => {
                let mut entries: Vec<(i64, u32, GuessSession)> = Vec::new();
                std::mem::swap(&mut entries, &mut self.entries);
                entries.remove(i);
                let ghost after = entries@;
                proof {
                    lemma_without(before, after, i as int);
                }
                self.entries = entries;
            },
        }
    }

    /// Gives a guess a session.
    pub fn insert(&mut self, round_id: i64, guess_num: u32, session: GuessSession)
        ensures
            final(self)@ == old(self)@.insert((round_id, guess_num), session),
    {
        self.remove(round_id, guess_num);
        proof {
            use_type_invariant(&*self);
        }
        let ghost k = (round_id, guess_num);
        let ghost before = self.entries@;
        assert(!session_map(before).dom().contains(k));
        let mut entries: Vec<(i64, u32, GuessSession)> = Vec::new();
        std::mem::swap(&mut entries, &mut self.entries);
        entries.push((round_id, guess_num, session));
        let ghost after = entries@;
        proof {
            let n = before.len() as int;
            assert(key_at(after, n) == k);
            assert forall|i: int| 0 <= i < n implies #[trigger] key_at(after, i) == key_at(before, i)
                && key_at(before, i) != k by {
                assert(after[i] == before[i]);
                if key_at(before, i) == k {
                    assert(holds(before, k));
                }
            }
            assert(keys_distinct(after)) by {
                assert forall|i: int, j: int|
                    #![trigger key_at(after, i), key_at(after, j)]
                    0 <= i < j < after.len() implies key_at(after, i) != key_at(after, j) by {
                    assert(key_at(before, i) == key_at(after, i));
                    if j < n {
                        assert(key_at(before, j) == key_at(after, j));
                    }
                }
            }
            assert(session_map(after) =~= session_map(before).insert(k, session)) by {
                assert forall|q: (i64, u32)| #[trigger] holds(after, q) == (q == k || holds(before, q)) by {
                    if holds(after, q) {
                        let i = choose|i: int| 0 <= i < after.len() && #[trigger] key_at(after, i) == q;
                        if i < n {
                            assert(key_at(before, i) == q);
                        }
                    }
                    if holds(before, q) {
                        let i = choose|i: int| 0 <= i < before.len() && #[trigger] key_at(before, i)
                            == q;
                        assert(key_at(after, i) == q);
                    }
                }
                assert forall|q: (i64, u32)| holds(after, q) implies #[trigger] session_map(after)[q]
                    == session_map(before).insert(k, session)[q] by {
                    let i = choose|i: int| 0 <= i < after.len() && #[trigger] key_at(after, i) == q;
                    lemma_session_at(after, i);
                    if i < n {
                        assert(key_at(before, i) == q);
                        lemma_session_at(before, i);
                        assert(after[i] == before[i]);
                    }
                }
            }
            assert(session_map(after) =~= old(self)@.insert(k, session));
        }
        self.entries = entries;
    }

    /// Drops all sessions.
    pub fn clear(&mut self)
        ensures
            final(self)@ == Map::<(i64, u32), GuessSession>::empty(),
    {
        self.entries = Vec::new();
        assert(self@ =~= Map::<(i64, u32), GuessSession>::empty());
    }
}

proof fn lemma_without(
    before: Seq<(i64, u32, GuessSession)>,
    after: Seq<(i64, u32, GuessSession)>,
    i: int,
)
    requires
        keys_distinct(before),
        0 <= i < before.len(),
        after == before.remove(i),
    ensures
        keys_distinct(after),
        session_map(after) == session_map(before).remove(key_at(before, i)),
{
    let k = key_at(before, i);
    assert forall|a: int| 0 <= a < after.len() implies #[trigger] key_at(after, a) == key_at(
        before,
        if a < i {
            a
        } else {
            a + 1
        },
    ) by {
        assert(after[a] == before[if a < i {
            a
        } else {
            a + 1
        }]);
    }
    assert(keys_distinct(after)) by {
        assert forall|a: int, b: int|
            #![trigger key_at(after, a), key_at(after, b)]
            0 <= a < b < after.len() implies key_at(after, a) != key_at(after, b) by {
            let a0 = if a < i {
                a
            } else {
                a + 1
            };
            let b0 = if b < i {
                b
            } else {
                b + 1
            };
            assert(key_at(before, a0) != key_at(before, b0));
        }
    }
    assert forall|q: (i64, u32)| #[trigger] holds(after, q) == (q != k && holds(before, q)) by {
        if holds(after, q) {
            let a = choose|a: int| 0 <= a < after.len() && #[trigger] key_at(after, a) == q;
            let a0 = if a < i {
                a
            } else {
                a + 1
            };
            assert(key_at(before, a0) == q);
            assert(key_at(before, i) == k);
        }
        if q != k && holds(before, q) {
            let b = choose|b: int| 0 <= b < before.len() && #[trigger] key_at(before, b) == q;
            let b1 = if b < i {
                b
            } else {
                b - 1
            };
            assert(key_at(after, b1) == q);
        }
    }
    assert forall|q: (i64, u32)| holds(after, q) implies #[trigger] session_map(after)[q]
        == session_map(before)[q] by {
        let a = choose|a: int| 0 <= a < after.len() && #[trigger] key_at(after, a) == q;
        lemma_session_at(after, a);
        let a0 = if a < i {
            a
        } else {
            a + 1
        };
        assert(key_at(before, a0) == q);
        lemma_session_at(before, a0);
    }
    assert(session_map(after) =~= session_map(before).remove(k));
}

// ── Store ────────────────────────────────────────────────────────────────────

/// The valid tokens and the sessions they belong to.
pub struct TokenStore {
    pub tokens: StrMap<GuessToken>,
    pub sessions: Sessions,
}

/// What the tokens hold.
pub open spec fn token_views(m: Map<Seq<char>, GuessToken>) -> Map<Seq<char>, GuessTokenView> {
    m.map_values(|t: GuessToken| t@)
}

/// Whether a token belongs to a guess.
pub open spec fn of_guess(t: GuessToken, round_id: i64, guess_num: u32) -> bool {
    t.round_id == round_id && t.guess_num == guess_num
}

/// The tokens that do not belong to a guess.
pub open spec fn without_guess(
    m: Map<Seq<char>, GuessToken>,
    round_id: i64,
    guess_num: u32,
) -> Map<Seq<char>, GuessToken> {
    m.restrict(
        Set::new(|k: Seq<char>| m.dom().contains(k) && !of_guess(m[k], round_id, guess_num)),
    )
}

/// The tokens after the first `k` players got theirs.
pub open spec fn issued(
    m: Map<Seq<char>, GuessTokenView>,
    tokens: Seq<Seq<char>>,
    players: Seq<Seq<char>>,
    state: State,
    round_id: i64,
    guess_num: u32,
    k: nat,
) -> Map<Seq<char>, GuessTokenView>
    decreases k,
{
    if k == 0 {
        m
    } else {
        issued(m, tokens, players, state, round_id, guess_num, (k - 1) as nat).insert(
            tokens[k - 1],
            GuessTokenView {
                user_id: players[k - 1],
                round_id,
                guess_num,
                lang: state.language(players[k - 1]),
            },
        )
    }
}

/// Where the new tokens differ, each of them leads to the player it was made
/// for, with the player's language, in this guess.
pub proof fn law_links_are_personal(
    m: Map<Seq<char>, GuessTokenView>,
    tokens: Seq<Seq<char>>,
    players: Seq<Seq<char>>,
    state: State,
    round_id: i64,
    guess_num: u32,
    i: int,
)
    requires
        tokens.no_duplicates(),
        tokens.len() == players.len(),
        0 <= i < tokens.len(),
    ensures
        issued(m, tokens, players, state, round_id, guess_num, tokens.len()).dom().contains(
            tokens[i],
        ),
        issued(m, tokens, players, state, round_id, guess_num, tokens.len())[tokens[i]] == (
        GuessTokenView {
            user_id: players[i],
            round_id,
            guess_num,
            lang: state.language(players[i]),
        }),
{
    lemma_issued(m, tokens, players, state, round_id, guess_num, i, tokens.len());
}

proof fn lemma_issued(
    m: Map<Seq<char>, GuessTokenView>,
    tokens: Seq<Seq<char>>,
    players: Seq<Seq<char>>,
    state: State,
    round_id: i64,
    guess_num: u32,
    i: int,
    k: nat,
)
    requires
        tokens.no_duplicates(),
        tokens.len() == players.len(),
        0 <= i < k <= tokens.len(),
    ensures
        issued(m, tokens, players, state, round_id, guess_num, k).dom().contains(tokens[i]),
        issued(m, tokens, players, state, round_id, guess_num, k)[tokens[i]] == (GuessTokenView {
            user_id: players[i],
            round_id,
            guess_num,
            lang: state.language(players[i]),
        }),
    decreases k,
{
    if i < k - 1 {
        lemma_issued(m, tokens, players, state, round_id, guess_num, i, (k - 1) as nat);
        assert(tokens[i] != tokens[k - 1]);
    }
}

/// The newest of the first `k` tokens that belongs to a player in a guess.
pub open spec fn token_among(
    keys: Seq<Seq<char>>,
    m: Map<Seq<char>, GuessToken>,
    player: Seq<char>,
    round_id: i64,
    guess_num: u32,
    k: nat,
) -> Option<Seq<char>>
    decreases k,
{
    if k == 0 {
        None
    } else if of_guess(m[keys[k - 1]], round_id, guess_num) && m[keys[k - 1]].user_id@ == player {
        Some(keys[k - 1])
    } else {
        token_among(keys, m, player, round_id, guess_num, (k - 1) as nat)
    }
}

/// What the status line says of a player.
pub open spec fn status_text(
    player: Seq<char>,
    answered: bool,
    token: Option<Seq<char>>,
    public_url: Seq<char>,
) -> Seq<char> {
    if answered {
        "✅ "@ + guess::local_name(player)
    } else {
        match token {
            Some(t) => guess::link_text(player, Some(public_url), t),
            None => "⏳ "@ + guess::local_name(player),
        }
    }
}

/// The status line ticks off who has answered, gives everybody else their own link, and
/// says of somebody without a link that they are awaited.
pub proof fn law_status_of_a_player(
    player: Seq<char>,
    token: Seq<char>,
    public_url: Seq<char>,
    had: Option<Seq<char>>,
)
    ensures
        status_text(player, true, had, public_url) == "✅ "@ + guess::local_name(player),
        status_text(player, false, Some(token), public_url) == "[🗺️ "@ + guess::local_name(player)
            + "]("@ + public_url + "/g/"@ + token + ")"@,
        status_text(player, false, None, public_url) == "⏳ "@ + guess::local_name(player),
{
}

/// The players who have answered.
pub open spec fn submitted(game: Option<&ActiveGame>) -> Set<Seq<char>> {
    match game {
        Some(g) => g.mode.answers().dom(),
        None => Set::empty(),
    }
}

impl TokenStore {
    /// Whether the players of all tokens and sessions are user identifiers.
    pub open spec fn well_formed(&self) -> bool {
        &&& forall|k: Seq<char>| #[trigger]
            self.tokens@.dom().contains(k) ==> guess::is_user_id(self.tokens@[k].user_id@)
        &&& forall|k: (i64, u32)| #[trigger]
            self.sessions@.dom().contains(k) ==> guess::all_user_ids(
                self.sessions@[k].participants@,
            )
    }

    /// The token of a player in a guess.
    pub open spec fn token_of(&self, player: Seq<char>, round_id: i64, guess_num: u32) -> Option<
        Seq<char>,
    > {
        token_among(
            self.tokens.keys(),
            self.tokens@,
            player,
            round_id,
            guess_num,
            self.tokens.keys().len(),
        )
    }

    /// What the status line says of each of the first `k` players.
    pub open spec fn status_texts(
        &self,
        players: Seq<String>,
        round_id: i64,
        guess_num: u32,
        answered: Set<Seq<char>>,
        public_url: Seq<char>,
        k: nat,
    ) -> Seq<Seq<char>> {
        Seq::new(
            k,
            |i: int|
                status_text(
                    players[i]@,
                    answered.contains(players[i]@),
                    self.token_of(players[i]@, round_id, guess_num),
                    public_url,
                ),
        )
    }

    /// The token record behind a link.
    pub fn lookup(&self, token: &str) -> (r: Option<&GuessToken>)
        ensures
            r is Some == self.tokens@.dom().contains(token@),
            r matches Some(t) ==> *t == self.tokens@[token@],
    {
        self.tokens.get(token)
    }

    /// Makes a token for each player of a guess.
    pub fn issue_tokens(
        &mut self,
        players: &Vec<String>,
        state: &State,
        round_id: i64,
        guess_num: u32,
    ) -> (tokens: Vec<String>)
        ensures
            tokens@.len() == players@.len(),
            forall|i: int| 0 <= i < tokens@.len() ==> is_token((#[trigger] tokens@[i])@),
            token_views(final(self).tokens@) == issued(
                token_views(old(self).tokens@),
                text::views(tokens@),
                text::views(players@),
                *state,
                round_id,
                guess_num,
                tokens@.len(),
            ),
            final(self).sessions == old(self).sessions,
            old(self).well_formed() && guess::all_user_ids(players@) ==> final(self).well_formed(),
            forall|i: int|
                0 <= i < tokens@.len() ==> final(self).tokens@.dom().contains(
                    (#[trigger] tokens@[i])@,
                ),
            text::views(tokens@).no_duplicates() ==> forall|i: int|
                0 <= i < tokens@.len() ==> {
                    let t = final(self).tokens@[(#[trigger] tokens@[i])@];
                    &&& t.user_id@ == players@[i]@
                    &&& t.round_id == round_id
                    &&& t.guess_num == guess_num
                    &&& t.lang@ == if state.user_langs@.dom().contains(players@[i]@) {
                        state.user_langs@[players@[i]@]@
                    } else {
                        "en"@
                    }
                },
            forall|q: Seq<char>|
                !text::views(tokens@).contains(q) ==> {
                    &&& #[trigger] final(self).tokens@.dom().contains(q)
                        == old(self).tokens@.dom().contains(q)
                    &&& old(self).tokens@.dom().contains(q) ==> final(self).tokens@[q]
                        == old(self).tokens@[q]
                },
    {
        let ghost start = token_views(self.tokens@);
        let mut tokens: Vec<String> = Vec::new();
        let mut i: usize = 0;
        while i < players.len()
            invariant
                i <= players@.len(),
                tokens@.len() == i,
                start == token_views(old(self).tokens@),
                self.sessions == old(self).sessions,
                old(self).well_formed() && guess::all_user_ids(players@) ==> self.well_formed(),
                forall|k: int| 0 <= k < tokens@.len() ==> is_token((#[trigger] tokens@[k])@),
                forall|k: int|
                    0 <= k < tokens@.len() ==> self.tokens@.dom().contains(
                        (#[trigger] tokens@[k])@,
                    ),
                forall|q: Seq<char>|
                    !text::views(tokens@).contains(q) ==> {
                        &&& #[trigger] self.tokens@.dom().contains(q)
                            == old(self).tokens@.dom().contains(q)
                        &&& old(self).tokens@.dom().contains(q) ==> self.tokens@[q]
                            == old(self).tokens@[q]
                    },
                token_views(self.tokens@) == issued(
                    start,
                    text::views(tokens@),
                    text::views(players@),
                    *state,
                    round_id,
                    guess_num,
                    i as nat,
                ),
            decreases players@.len() - i,
        {
            let token = generate_token();
            let record = GuessToken {
                user_id: players[i].clone(),
                round_id,
                guess_num,
                lang: state.language_of(players[i].as_str()),
            };
            let ghost before = self.tokens@;
            let ghost earlier = tokens@;
            let ghost view = record@;
            let ghost key = token@;
            tokens.push(token.clone());
            self.tokens.insert(token, record);
            proof {
                assert(text::views(tokens@) =~= text::views(earlier).push(key));
                assert forall|q: Seq<char>| !text::views(tokens@).contains(q) implies {
                    &&& #[trigger] self.tokens@.dom().contains(q)
                        == old(self).tokens@.dom().contains(q)
                    &&& old(self).tokens@.dom().contains(q) ==> self.tokens@[q]
                        == old(self).tokens@[q]
                } by {
                    assert(text::views(tokens@)[i as int] == key);
                    assert(q != key);
                    if text::views(earlier).contains(q) {
                        let p = choose|p: int|
                            0 <= p < earlier.len() && text::views(earlier)[p] == q;
                        assert(text::views(tokens@)[p] == q);
                    }
                    assert(before.dom().contains(q) == old(self).tokens@.dom().contains(q));
                }
                assert(token_views(self.tokens@) =~= token_views(before).insert(key, view));
                assert(text::views(tokens@)[i as int] == key);
                assert(text::views(players@)[i as int] == players@[i as int]@);
                lemma_issued_prefix(
                    start,
                    text::views(earlier),
                    text::views(tokens@),
                    text::views(players@),
                    *state,
                    round_id,
                    guess_num,
                    i as nat,
                );
            }
            i = i + 1;
        }
        proof {
            let ts = text::views(tokens@);
            let ps = text::views(players@);
            if ts.no_duplicates() {
                assert forall|j: int| 0 <= j < tokens@.len() implies {
                    let t = self.tokens@[(#[trigger] tokens@[j])@];
                    &&& t.user_id@ == players@[j]@
                    &&& t.round_id == round_id
                    &&& t.guess_num == guess_num
                    &&& t.lang@ == if state.user_langs@.dom().contains(players@[j]@) {
                        state.user_langs@[players@[j]@]@
                    } else {
                        "en"@
                    }
                } by {
                    law_links_are_personal(start, ts, ps, *state, round_id, guess_num, j);
                    assert(ts[j] == tokens@[j]@ && ps[j] == players@[j]@);
                    assert(token_views(self.tokens@)[ts[j]] == self.tokens@[ts[j]]@);
                }
            }
        }
        tokens
    }

    /// Keeps the session of a guess.
    pub fn open_session(&mut self, round_id: i64, guess_num: u32, session: GuessSession)
        requires
            guess::all_user_ids(session.participants@),
        ensures
            final(self).sessions@ == old(self).sessions@.insert((round_id, guess_num), session),
            final(self).tokens == old(self).tokens,
            old(self).well_formed() ==> final(self).well_formed(),
    {
        self.sessions.insert(round_id, guess_num, session);
    }

    /// Drops the tokens and the session of a guess; those of other guesses stay.
    pub fn clear_guess(&mut self, round_id: i64, guess_num: u32)
        ensures
            final(self).tokens@ == without_guess(old(self).tokens@, round_id, guess_num),
            final(self).sessions@ == old(self).sessions@.remove((round_id, guess_num)),
            old(self).well_formed() ==> final(self).well_formed(),
            forall|q: Seq<char>|
                {
                    &&& #[trigger] final(self).tokens@.dom().contains(q)
                        <==> old(self).tokens@.dom().contains(q) && (old(self).tokens@[q].round_id
                        != round_id || old(self).tokens@[q].guess_num != guess_num)
                    &&& final(self).tokens@.dom().contains(q) ==> final(self).tokens@[q]
                        == old(self).tokens@[q]
                },
    {
        let n: usize = self.tokens.len();
        let ghost before = self.tokens@;
        let ghost keys = self.tokens.keys();
        let mut gone: Vec<String> = Vec::new();
        let mut i: usize = 0;
        while i < n
            invariant
                i <= n,
                n == keys.len(),
                keys == self.tokens.keys(),
                before == self.tokens@,
                self.sessions == old(self).sessions,
                before.dom() == keys.to_set(),
                forall|k: int|
                    0 <= k < gone@.len() ==> before.dom().contains((#[trigger] gone@[k])@)
                        && of_guess(before[gone@[k]@], round_id, guess_num),
                forall|k: int|
                    0 <= k < i && of_guess(before[#[trigger] keys[k]], round_id, guess_num)
                        ==> text::views(gone@).contains(keys[k]),
            decreases n - i,
        {
            let ghost earlier = gone@;
            let (key, record) = self.tokens.entry(i);
            let over = record.round_id == round_id && record.guess_num == guess_num;
            if over {
                gone.push(key.clone());
                proof {
                    assert(text::views(gone@)[gone@.len() - 1] == keys[i as int]);
                    assert forall|k: int|
                        0 <= k < i && of_guess(
                            before[#[trigger] keys[k]],
                            round_id,
                            guess_num,
                        ) implies text::views(gone@).contains(keys[k]) by {
                        let p = choose|p: int|
                            0 <= p < earlier.len() && text::views(earlier)[p] == keys[k];
                        assert(text::views(earlier).contains(keys[k]));
                        assert(text::views(gone@)[p] == keys[k]);
                    }
                }
            }
            i = i + 1;
        }
        let mut j: usize = 0;
        while j < gone.len()
            invariant
                j <= gone@.len(),
                self.sessions == old(self).sessions,
                forall|q: Seq<char>| #[trigger]
                    self.tokens@.dom().contains(q) <==> before.dom().contains(q) && !text::views(
                        gone@.take(j as int),
                    ).contains(q),
                forall|q: Seq<char>|
                    self.tokens@.dom().contains(q) ==> #[trigger] self.tokens@[q] == before[q],
            decreases gone@.len() - j,
        {
            let ghost earlier = self.tokens@;
            self.tokens.remove(gone[j].as_str());
            proof {
                let a = text::views(gone@.take(j as int));
                let b = text::views(gone@.take(j + 1));
                assert(b =~= a.push(gone@[j as int]@));
                assert forall|q: Seq<char>| #[trigger] b.contains(q) == (a.contains(q) || q
                    == gone@[j as int]@) by {
                    if a.contains(q) {
                        let p = choose|p: int| 0 <= p < a.len() && a[p] == q;
                        assert(b[p] == q);
                    }
                    if q == gone@[j as int]@ {
                        assert(b[j as int] == q);
                    }
                }
            }
            j = j + 1;
        }
        proof {
            assert(gone@.take(gone@.len() as int) =~= gone@);
            assert forall|q: Seq<char>| before.dom().contains(q) implies text::views(
                gone@,
            ).contains(q) == of_guess(before[q], round_id, guess_num) by {
                let p = choose|p: int| 0 <= p < keys.len() && keys[p] == q;
                assert(keys.contains(q));
                if text::views(gone@).contains(q) {
                    let r = choose|r: int| 0 <= r < gone@.len() && text::views(gone@)[r] == q;
                    assert(gone@[r]@ == q);
                }
            }
            assert(self.tokens@ =~= without_guess(before, round_id, guess_num));
        }
        self.sessions.remove(round_id, guess_num);
    }

    /// Drops everything.
    pub fn clear(&mut self)
        ensures
            final(self).tokens@ == Map::<Seq<char>, GuessToken>::empty(),
            final(self).sessions@ == Map::<(i64, u32), GuessSession>::empty(),
            final(self).well_formed(),
    {
        self.tokens = StrMap::new();
        self.sessions.clear();
    }

    fn find_token(&self, player: &str, round_id: i64, guess_num: u32) -> (r: Option<&String>)
        ensures
            r is Some == self.token_of(player@, round_id, guess_num) is Some,
            r matches Some(t) ==> t@ == self.token_of(player@, round_id, guess_num)->0,
            r matches Some(t) ==> self.tokens@.dom().contains(t@) && self.tokens@[t@].user_id@
                == player@ && self.tokens@[t@].round_id == round_id && self.tokens@[t@].guess_num
                == guess_num,
            r is None ==> forall|q: Seq<char>| #[trigger]
                self.tokens@.dom().contains(q) ==> self.tokens@[q].user_id@ != player@
                    || self.tokens@[q].round_id != round_id || self.tokens@[q].guess_num
                    != guess_num,
    {
        let n: usize = self.tokens.len();
        let mut k: usize = n;
        while k > 0
            invariant
                k <= n,
                n == self.tokens.keys().len(),
                self.tokens@.dom() == self.tokens.keys().to_set(),
                forall|j: int|
                    k <= j < n ==> {
                        let t = self.tokens@[#[trigger] self.tokens.keys()[j]];
                        t.user_id@ != player@ || t.round_id != round_id || t.guess_num != guess_num
                    },
                self.token_of(player@, round_id, guess_num) == token_among(
                    self.tokens.keys(),
                    self.tokens@,
                    player@,
                    round_id,
                    guess_num,
                    k as nat,
                ),
            decreases k,
        {
            k = k - 1;
            let (key, record) = self.tokens.entry(k);
            if record.round_id == round_id && record.guess_num == guess_num && text::same_text(
                record.user_id.as_str(),
                player,
            ) {
                return Some(key);
            }
        }
        assert forall|q: Seq<char>| #[trigger] self.tokens@.dom().contains(q) implies self.tokens@[q].user_id@
            != player@ || self.tokens@[q].round_id != round_id || self.tokens@[q].guess_num
            != guess_num by {
            let keys = self.tokens.keys();
            assert(keys.contains(q));
            let j = choose|j: int| 0 <= j < keys.len() && keys[j] == q;
            assert(keys[j] == q);
        }
        None
    }

    /// The status of the players of a guess: who has submitted and who still has
    /// an open link. `None` where the guess has no session. With it comes the
    /// message to edit.
    pub fn update_links_message(
        &self,
        round_id: i64,
        guess_num: u32,
        game: Option<&ActiveGame>,
        public_url: &str,
    ) -> (r: Option<(String, String)>)
        requires
            self.well_formed(),
        ensures
            r is Some == self.sessions@.dom().contains((round_id, guess_num)),
            r matches Some((event_id, line)) ==> event_id@ == self.sessions@[(
                round_id,
                guess_num,
            )].links_event_id@ && line@ == text::joined(
                self.status_texts(
                    self.sessions@[(round_id, guess_num)].participants@,
                    round_id,
                    guess_num,
                    submitted(game),
                    public_url@,
                    self.sessions@[(round_id, guess_num)].participants@.len(),
                ),
                "  ·  "@,
            ),
    {
        let session = match self.sessions.get(round_id, guess_num) {
            Some(s) => s,
            None => {
                return None;
            },
        };
        let players = &session.participants;
        let ghost answered = submitted(game);
        let mut parts: Vec<String> = Vec::new();
        let mut i: usize = 0;
        while i < players.len()
            invariant
                i <= players@.len(),
                guess::all_user_ids(players@),
                answered == submitted(game),
                text::views(parts@) == self.status_texts(
                    players@,
                    round_id,
                    guess_num,
                    answered,
                    public_url@,
                    i as nat,
                ),
            decreases players@.len() - i,
        {
            let player = players[i].as_str();
            assert(guess::is_user_id(players@[i as int]@));
            let done = match game {
                Some(g) => g.answer_of(player).is_some(),
                None => false,
            };
            let token = self.find_token(player, round_id, guess_num);
            let part = if done {
                let mut out = text::owned("✅ ");
                out.append(guess::localpart(player).as_str());
                out
            } else {
                match token {
                    Some(t) => guess::player_link(player, Some(public_url), t.as_str()),
                    None => {
                        let mut out = text::owned("⏳ ");
                        out.append(guess::localpart(player).as_str());
                        out
                    },
                }
            };
            let ghost before = text::views(parts@);
            let ghost shown = part@;
            assert(shown == status_text(
                player@,
                answered.contains(player@),
                self.token_of(player@, round_id, guess_num),
                public_url@,
            ));
            parts.push(part);
            assert(text::views(parts@) =~= before.push(shown));
            i = i + 1;
            assert(text::views(parts@) =~= self.status_texts(
                players@,
                round_id,
                guess_num,
                answered,
                public_url@,
                i as nat,
            ));
        }
        Some((session.links_event_id.clone(), text::join(&parts, "  ·  ")))
    }
}

proof fn lemma_issued_prefix(
    m: Map<Seq<char>, GuessTokenView>,
    a: Seq<Seq<char>>,
    b: Seq<Seq<char>>,
    players: Seq<Seq<char>>,
    state: State,
    round_id: i64,
    guess_num: u32,
    k: nat,
)
    requires
        k <= a.len(),
        k <= b.len(),
        forall|i: int| 0 <= i < k ==> a[i] == b[i],
    ensures
        issued(m, a, players, state, round_id, guess_num, k) == issued(
            m,
            b,
            players,
            state,
            round_id,
            guess_num,
            k,
        ),
    decreases k,
{
    if k > 0 {
        lemma_issued_prefix(m, a, b, players, state, round_id, guess_num, (k - 1) as nat);
    }
}

/// A store without tokens.
pub fn new_token_store() -> (s: TokenStore)
    ensures
        s.tokens@ == Map::<Seq<char>, GuessToken>::empty(),
        s.sessions@ == Map::<(i64, u32), GuessSession>::empty(),
        s.well_formed(),
{
    TokenStore { tokens: StrMap::new(), sessions: Sessions::new() }
}

// ── Submissions ──────────────────────────────────────────────────────────────

/// 90 degrees.
pub const MAX_LAT_BITS: u64 = 0x4056_8000_0000_0000;

/// 180 degrees.
pub const MAX_LON_BITS: u64 = 0x4066_8000_0000_0000;

/// Whether both values are numbers, neither is infinite, the latitude is at most
/// 90 degrees from the equator and the longitude at most 180 from the meridian.
pub open spec fn valid_coords(lat: F64Bits, lon: F64Bits) -> bool {
    lat.is_finite() && lon.is_finite() && lat.magnitude() <= MAX_LAT_BITS && lon.magnitude()
        <= MAX_LON_BITS
}

/// Whether the values are coordinates of a place.
pub fn is_valid_coords(lat: F64Bits, lon: F64Bits) -> (r: bool)
    ensures
        r == valid_coords(lat, lon),
        r <==> (lat.bits <= 0x4056_8000_0000_0000 || 0x8000_0000_0000_0000 <= lat.bits
            <= 0xc056_8000_0000_0000) && (lon.bits <= 0x4066_8000_0000_0000
            || 0x8000_0000_0000_0000 <= lon.bits <= 0xc066_8000_0000_0000),
{
    lat.magnitude_bits() < INFINITY_64 && lon.magnitude_bits() < INFINITY_64 && lat.magnitude_bits()
        <= MAX_LAT_BITS && lon.magnitude_bits() <= MAX_LON_BITS
}

/// What becomes of a submission.
pub enum Submission {
    /// The coordinates are no place.
    Invalid,
    /// The token is not known.
    Unknown,
    /// Answered as if it had been recorded. Where it was, `refresh` says so, and
    /// the links message of the guess is out of date.
    Acknowledged { lang: String, round_id: i64, guess_num: u32, refresh: bool },
}

/// The answers of a guess that may not be running.
pub open spec fn answers_of(game: Option<ActiveGame>) -> Option<Map<Seq<char>, FreeGuess>> {
    match game {
        Some(g) => Some(g.mode.answers()),
        None => None,
    }
}

/// Whether a submission of `player` is recorded: a guess is running, and the
/// player has not answered yet or may answer again.
pub open spec fn counts(
    answers: Option<Map<Seq<char>, FreeGuess>>,
    player: Seq<char>,
    max_guesses: u32,
) -> bool {
    match answers {
        Some(a) => !(max_guesses > 0 && a.dom().contains(player)),
        None => false,
    }
}

/// The answers after a submission.
pub open spec fn answers_after(
    answers: Option<Map<Seq<char>, FreeGuess>>,
    store: TokenStore,
    token: Seq<char>,
    guess: FreeGuess,
    max_guesses: u32,
) -> Option<Map<Seq<char>, FreeGuess>> {
    if valid_coords(guess.lat, guess.lon) && store.tokens@.dom().contains(token) {
        let player = store.tokens@[token].user_id@;
        if counts(answers, player, max_guesses) {
            Some(answers->0.insert(player, guess))
        } else {
            answers
        }
    } else {
        answers
    }
}

/// Takes a submission. `max_guesses` is 0 where a player may answer again and
/// again; otherwise only the first answer of a player counts, and later ones are
/// acknowledged without a trace.
pub fn submit_guess(
    store: &TokenStore,
    game: &mut Option<ActiveGame>,
    token: &str,
    guess: FreeGuess,
    max_guesses: u32,
) -> (r: Submission)
    ensures
        r is Invalid == !valid_coords(guess.lat, guess.lon),
        r is Unknown == (valid_coords(guess.lat, guess.lon) && !store.tokens@.dom().contains(token@)),
        r matches Submission::Acknowledged { lang, round_id, guess_num, refresh } ==> {
            &&& lang@ == store.tokens@[token@].lang@
            &&& round_id == store.tokens@[token@].round_id
            &&& guess_num == store.tokens@[token@].guess_num
            &&& refresh == counts(
                answers_of(*old(game)),
                store.tokens@[token@].user_id@,
                max_guesses,
            )
        },
        answers_of(*final(game)) == answers_after(
            answers_of(*old(game)),
            *store,
            token@,
            guess,
            max_guesses,
        ),
        *final(game) matches Some(g) ==> g.event_id == old(game)->0.event_id && g.mode.target()
            == old(game)->0.mode.target(),
        *final(game) is Some == *old(game) is Some,
        !(r is Acknowledged) && *old(game) is Some ==> final(game)->0.mode.answers()
            == old(game)->0.mode.answers(),
        r is Acknowledged ==> {
            &&& store.tokens@.dom().contains(token@)
            &&& *old(game) is Some ==> {
                let player = store.tokens@[token@].user_id@;
                let before = old(game)->0.mode.answers();
                let after = final(game)->0.mode.answers();
                &&& max_guesses > 0 && before.dom().contains(player) ==> after == before
                &&& max_guesses == 0 || !before.dom().contains(player) ==> after.dom().contains(
                    player,
                ) && after[player] == guess
                &&& forall|other: Seq<char>|
                    other != player ==> {
                        &&& #[trigger] after.dom().contains(other) == before.dom().contains(other)
                        &&& after[other] == before[other]
                    }
            }
        },
        r matches Submission::Acknowledged { refresh, .. } ==> (refresh <==> *old(game) is Some && (
        max_guesses == 0 || !old(game)->0.mode.answers().dom().contains(
            store.tokens@[token@].user_id@,
        ))),
{
    if !is_valid_coords(guess.lat, guess.lon) {
        return Submission::Invalid;
    }
    let record = match store.lookup(token) {
        Some(t) => t,
        None => {
            return Submission::Unknown;
        },
    };
    let refresh = match game {
        Some(g) => g.record_free_guess(record.user_id.clone(), guess, max_guesses),
        None => false,
    };
    Submission::Acknowledged {
        lang: record.lang.clone(),
        round_id: record.round_id,
        guess_num: record.guess_num,
        refresh,
    }
}

/// The status and text with which a submission is refused, where it is.
pub fn refusal(s: &Submission) -> (r: Option<(u16, &'static str)>)
    ensures
        match s {
            Submission::Invalid => r matches Some((code, why)) && code == 400 && why@
                == "Invalid coordinates"@,
            Submission::Unknown => r matches Some((code, why)) && code == 404 && why@
                == "Link expired or invalid"@,
            Submission::Acknowledged { .. } => r is None,
        },
{
    match s {
        Submission::Invalid => Some((400, "Invalid coordinates")),
        Submission::Unknown => Some((404, "Link expired or invalid")),
        Submission::Acknowledged { .. } => None,
    }
}

/// Nobody but the player a token was made for can be affected by a submission
/// with it.
pub proof fn law_submissions_touch_one_player(
    answers: Map<Seq<char>, FreeGuess>,
    store: TokenStore,
    token: Seq<char>,
    guess: FreeGuess,
    max_guesses: u32,
    other: Seq<char>,
)
    requires
        store.tokens@.dom().contains(token) ==> other != store.tokens@[token].user_id@,
    ensures
        ({
            let after = answers_after(Some(answers), store, token, guess, max_guesses)->0;
            &&& after.dom().contains(other) == answers.dom().contains(other)
            &&& answers.dom().contains(other) ==> after[other] == answers[other]
        }),
{
}

/// Once the tokens of a guess are dropped, no token that remains belongs to it,
/// and every token of another guess is as before.
pub proof fn law_cleared_tokens_are_gone(
    tokens: Map<Seq<char>, GuessToken>,
    round_id: i64,
    guess_num: u32,
    token: Seq<char>,
)
    ensures
        without_guess(tokens, round_id, guess_num).dom().contains(token) ==> !of_guess(
            tokens[token],
            round_id,
            guess_num,
        ),
        tokens.dom().contains(token) && !of_guess(tokens[token], round_id, guess_num)
            ==> without_guess(tokens, round_id, guess_num).dom().contains(token) && without_guess(
            tokens,
            round_id,
            guess_num,
        )[token] == tokens[token],
{
}

// ── Pages ────────────────────────────────────────────────────────────────────

/// A hexadecimal digit in lower case.
pub open spec fn low_hex(d: int) -> char {
    if d < 10 {
        ('0' as int + d) as char
    } else {
        ('a' as int + d - 10) as char
    }
}

/// How a character stands in a JSON string.
pub open spec fn json_char(c: char) -> Seq<char> {
    if c == '"' {
        seq!['\\', '"']
    } else if c == '\\' {
        seq!['\\', '\\']
    } else if c as int == 8 {
        seq!['\\', 'b']
    } else if c as int == 9 {
        seq!['\\', 't']
    } else if c as int == 10 {
        seq!['\\', 'n']
    } else if c as int == 12 {
        seq!['\\', 'f']
    } else if c as int == 13 {
        seq!['\\', 'r']
    } else if (c as int) < 32 {
        seq!['\\', 'u', '0', '0', low_hex(c as int / 16), low_hex(c as int % 16)]
    } else {
        seq![c]
    }
}

/// A text as it stands between the quotes of a JSON string.
pub open spec fn json_chars(s: Seq<char>) -> Seq<char>
    decreases s.len(),
{
    if s.len() == 0 {
        Seq::empty()
    } else {
        json_chars(s.drop_last()) + json_char(s.last())
    }
}

/// A text as a JSON string.
pub open spec fn json_text(s: Seq<char>) -> Seq<char> {
    seq!['"'] + json_chars(s) + seq!['"']
}

/// `serde_json::to_string` of a text: quotes around it; quotes, backslashes and
/// control characters escaped, the latter as a letter or as four hexadecimal
/// digits; all else as it is. Writing a text does not fail.
#[verifier::external_body]
fn json_string(s: &str) -> (r: Option<String>)
    ensures
        r is Some,
        r->0@ == json_text(s@),
{
    serde_json::to_string(s).ok()
}

/// `true` or `false`.
pub open spec fn bool_text(b: bool) -> Seq<char> {
    if b {
        "true"@
    } else {
        "false"@
    }
}

/// The map page of a player.
pub open spec fn map_page_text(
    token: Seq<char>,
    name: Seq<char>,
    one_shot: bool,
    lang: Seq<char>,
) -> Seq<char> {
    let with_token = text::replaced(MAP_PAGE@, "__TOKEN__"@, json_text(token));
    let with_name = text::replaced(with_token, "__NAME__"@, json_text(name));
    let with_mode = text::replaced(with_name, "__ONE_SHOT__"@, bool_text(one_shot));
    text::replaced(with_mode, "__LANG__"@, json_text(lang))
}

/// The map page of a player.
pub fn map_html(token: &str, display_name: &str, one_shot: bool, lang: &str) -> (out: String)
    ensures
        out@ == map_page_text(token@, display_name@, one_shot, lang@),
        out@ == text::replaced(
            text::replaced(
                text::replaced(
                    text::replaced(MAP_PAGE@, "__TOKEN__"@, json_text(token@)),
                    "__NAME__"@,
                    json_text(display_name@),
                ),
                "__ONE_SHOT__"@,
                if one_shot {
                    "true"@
                } else {
                    "false"@
                },
            ),
            "__LANG__"@,
            json_text(lang@),
        ),
{
    let token_json = match json_string(token) {
        Some(t) => t,
        None => text::owned("\"\""),
    };
    let name_json = match json_string(display_name) {
        Some(t) => t,
        None => text::owned("\"\""),
    };
    let lang_json = match json_string(lang) {
        Some(t) => t,
        None => text::owned("\"en\""),
    };
    let mode = if one_shot {
        "true"
    } else {
        "false"
    };
    proof {
        reveal_strlit("__TOKEN__");
        reveal_strlit("__NAME__");
        reveal_strlit("__ONE_SHOT__");
        reveal_strlit("__LANG__");
    }
    let page = text::replace(MAP_PAGE, "__TOKEN__", token_json.as_str());
    let page = text::replace(page.as_str(), "__NAME__", name_json.as_str());
    let page = text::replace(page.as_str(), "__ONE_SHOT__", mode);
    text::replace(page.as_str(), "__LANG__", lang_json.as_str())
}

/// The page behind a link that is no longer valid.
pub fn expired_html() -> (out: String)
    ensures
        out@ == EXPIRED_PAGE@,
{
    text::owned(EXPIRED_PAGE)
}

/// The page behind a link: the map page of the player, or `None` where the token
/// is not known.
pub fn serve_map(store: &TokenStore, token: &str, max_guesses: u32) -> (r: Option<String>)
    requires
        store.well_formed(),
    ensures
        r is Some == store.tokens@.dom().contains(token@),
        r matches Some(page) ==> page@ == map_page_text(
            token@,
            guess::local_name(store.tokens@[token@].user_id@),
            max_guesses > 0,
            store.tokens@[token@].lang@,
        ),
{
    match store.lookup(token) {
        Some(record) => Some(
            map_html(
                token,
                guess::localpart(record.user_id.as_str()).as_str(),
                max_guesses > 0,
                record.lang.as_str(),
            ),
        ),
        None => None,
    }
}

} // verus!
