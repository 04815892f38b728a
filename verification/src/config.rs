//! Configuration of the bot.

use vstd::prelude::*;

use crate::bits::F64Bits;
use crate::clock;
use crate::text;

verus! {

/// The parts of the configuration that the rules of the game read.
pub struct Config {
    pub security: SecurityConfig,
    pub schedule: ScheduleConfig,
    pub sources: SourcesConfig,
    pub web: Option<WebConfig>,
}

/// Optional HTTP server for the interactive map-based guess interface.
pub struct WebConfig {
    /// Address the bot listens on (e.g. "0.0.0.0:8080").
    pub bind_addr: String,
    /// Public base URL players open in their browser (no trailing slash).
    pub public_url: String,
}

/// Who may do what.
pub struct SecurityConfig {
    /// Users whose room invitations are accepted.
    pub allowed_inviters: Vec<String>,
    /// Users who may run the admin commands.
    pub admin_users: Vec<String>,
}

/// When and how games are played.
pub struct ScheduleConfig {
    pub room_id: String,
    /// "HH:MM" times, in the configured time zone, at which games start.
    pub game_times: Vec<String>,
    /// Seconds to collect answers per guess before revealing.
    pub answer_timeout_secs: u64,
    /// Number of guesses (locations) per round.
    pub guesses_per_round: u32,
    /// Pause in seconds between pictures.
    pub inter_guess_secs: u64,
    /// Seconds before the game to post the join message; 0 posts none.
    pub reminder_before_secs: u64,
    /// IANA time zone (e.g. "Europe/Berlin").
    pub timezone: String,
    /// Emoji recorded with the join message.
    pub join_emoji: String,
    /// How many photos to post for a single guess location.
    pub photos_per_location: usize,
    /// 0: a new guess replaces the previous one; otherwise only the first counts.
    pub max_guesses_per_player: u32,
    /// Scale of the scoring curve in kilometres.
    pub score_half_life_km: F64Bits,
    /// Leaderboard rating tuning.
    pub rating: RatingConfig,
}

/// Tuning of the leaderboard's rating.
#[derive(Clone, Copy)]
pub struct RatingConfig {
    /// How many guesses' worth of pull the baseline has.
    pub k: F64Bits,
    /// Guesses played below which an entry is provisional.
    pub provisional_threshold: i64,
    /// Baseline used while there is no community data.
    pub baseline_fallback: F64Bits,
}

/// Where images come from.
pub struct SourcesConfig {
    /// Which sources to draw images from: "mapillary", "local".
    pub enabled: Vec<String>,
    pub mapillary: MapillaryConfig,
    pub local: LocalConfig,
}

/// Access to Mapillary.
pub struct MapillaryConfig {
    /// Client access token (required).
    pub access_token: String,
    /// Desired search radius in metres around the seed coordinate.
    pub search_radius: u32,
    /// Optional ISO 3166-1 alpha-2 country filter.
    pub countries: Vec<String>,
}

/// Images on the local disk.
pub struct LocalConfig {
    /// Directory that contains images and an index.
    pub path: Option<String>,
}

/// The hour and minute that a text of the form "HH:MM" denotes.
///
/// The text is split at its first colon; both parts may be surrounded by white
/// space, may carry a plus sign and need not have two digits.
pub open spec fn clock_time(s: Seq<char>) -> Option<(nat, nat)> {
    match text::find_from(s, seq![':'], 0) {
        None => None,
        Some(p) => {
            let hour = text::parsed(text::trimmed(s.take(p)), u32::MAX as nat);
            let minute = text::parsed(text::trimmed(s.skip(p + 1)), u32::MAX as nat);
            if hour is Some && minute is Some && hour->0 < 24 && minute->0 < 60 {
                Some((hour->0, minute->0))
            } else {
                None
            }
        },
    }
}

impl ScheduleConfig {
    /// Reads a time of day.
    pub fn parse_game_time(s: &str) -> (r: Option<(u32, u32)>)
        ensures
            r is Some == clock_time(s@) is Some,
            r matches Some((h, m)) ==> (h as nat, m as nat) == clock_time(s@)->0 && h < 24 && m
                < 60,
    {
        let v = text::chars_of(s);
        let colon: Vec<char> = vec![':'];
        assert(colon@ =~= seq![':']);
        let at = match text::find_chars(&v, &colon, 0) {
            Some(p) => p,
            None => {
                return None;
            },
        };
        let head = text::string_of(&v, 0, at);
        let tail = text::string_of(&v, at + 1, v.len());
        assert(head@ =~= s@.take(at as int));
        assert(tail@ =~= s@.skip(at + 1));
        let hour = text::parse_number(text::trim(head.as_str()).as_str(), u32::MAX as u64);
        let minute = text::parse_number(text::trim(tail.as_str()).as_str(), u32::MAX as u64);
        match (hour, minute) {
            (Some(h), Some(m)) => {
                if h < 24 && m < 60 {
                    Some((h as u32, m as u32))
                } else {
                    None
                }
            },
            _ => None,
        }
    }
}

proof fn lemma_two_digits(n: nat)
    requires
        n < 100,
    ensures
        ({
            let t = text::two_digits(n);
            &&& t.len() == 2
            &&& t == seq![text::digit(n / 10), text::digit(n % 10)]
            &&& text::parsed(t, u32::MAX as nat) == Some(n)
            &&& text::trimmed(t) == t
        }),
{
    reveal_with_fuel(text::decimal, 3);
    reveal_with_fuel(text::digits_value, 4);
    reveal_with_fuel(text::skip_spaces, 3);
    reveal_with_fuel(text::trim_end, 3);
    let t = text::two_digits(n);
    assert(t =~= seq![text::digit(n / 10), text::digit(n % 10)]);
    assert(text::without_plus(t) == t);
    assert(t.drop_last() =~= seq![text::digit(n / 10)]);
    assert(t.drop_last().drop_last() =~= Seq::empty());
    assert(text::digits_value(t) == n);
    assert(text::all_digits(t));
    assert(text::skip_spaces(t, 0) == 0);
    assert(text::trim_end(t, 0, 2) == 2);
    assert(t.subrange(0, 2) =~= t);
}

/// A time of day that the bot writes is read back as the same time.
pub proof fn law_written_times_read_back(h: nat, m: nat)
    requires
        h < 24,
        m < 60,
    ensures
        clock_time(clock::hour_minute(h, m)) == Some((h, m)),
{
    reveal_strlit(":");
    reveal_with_fuel(text::find_from, 4);
    lemma_two_digits(h);
    lemma_two_digits(m);
    let a = text::two_digits(h);
    let b = text::two_digits(m);
    let s = clock::hour_minute(h, m);
    assert(":"@ =~= seq![':']);
    assert(s =~= a + seq![':'] + b);
    assert(s[0] == a[0] && s[1] == a[1] && s[2] == ':');
    assert(s.subrange(0, 1) =~= seq![s[0]]);
    assert(s.subrange(1, 2) =~= seq![s[1]]);
    assert(s.subrange(2, 3) =~= seq![':']);
    assert(seq![s[0]][0] == s[0] && seq![s[1]][0] == s[1] && seq![':'][0] == ':');
    assert(!text::occurs_at(s, seq![':'], 0));
    assert(!text::occurs_at(s, seq![':'], 1));
    assert(text::occurs_at(s, seq![':'], 2));
    assert(text::find_from(s, seq![':'], 0) == Some(2int));
    assert(s.take(2) =~= a);
    assert(s.skip(3) =~= b);
}

/// Hour and minute need not have two digits: a number up to 23, a colon and a number up
/// to 59 are a time of day, and larger numbers are none.
pub proof fn law_times_of_day(h: nat, m: nat)
    requires
        h <= u32::MAX,
        m <= u32::MAX,
    ensures
        clock_time(text::decimal(h) + seq![':'] + text::decimal(m)) == if h < 24 && m < 60 {
            Some((h, m))
        } else {
            None
        },
{
    let a = text::decimal(h);
    let b = text::decimal(m);
    text::law_decimal_notation(h, 0);
    text::law_decimal_notation(m, 0);
    assert(!a.contains(':')) by {
        if a.contains(':') {
            let i = choose|i: int| 0 <= i < a.len() && a[i] == ':';
            assert('0' <= a[i] <= '9');
        }
    }
    assert('0' <= a[0] <= '9' && '0' <= a[a.len() - 1] <= '9');
    assert('0' <= b[0] <= '9' && '0' <= b[b.len() - 1] <= '9');
    text::law_texts_are_split_at_a_character(a, ':', b);
    text::law_trimmed_stays(a);
    text::law_trimmed_stays(b);
    text::law_written_numbers_read_back(h, u32::MAX as nat);
    text::law_written_numbers_read_back(m, u32::MAX as nat);
}

/// A text without a colon is no time of day.
pub proof fn law_no_time_without_a_colon(s: Seq<char>)
    requires
        !s.contains(':'),
    ensures
        clock_time(s) is None,
{
    text::law_texts_are_split_at_a_character(s, ':', Seq::empty());
}

// ── Defaults ─────────────────────────────────────────────────────────────────

pub fn default_join_emoji() -> (r: String)
    ensures
        r@ == "👍"@,
{
    text::owned("👍")
}

pub fn default_answer_timeout() -> (r: u64)
    ensures
        r == 90,
{
    90
}

pub fn default_guesses_per_round() -> (r: u32)
    ensures
        r == 5,
{
    5
}

pub fn default_inter_guess_secs() -> (r: u64)
    ensures
        r == 15,
{
    15
}

pub fn default_reminder_before_secs() -> (r: u64)
    ensures
        r == 300,
{
    300
}

pub fn default_timezone() -> (r: String)
    ensures
        r@ == "UTC"@,
{
    text::owned("UTC")
}

pub fn default_photos_per_location() -> (r: usize)
    ensures
        r == 1,
{
    1
}

/// 2000 km.
pub fn default_score_half_life_km() -> (r: F64Bits)
    ensures
        r.bits == 0x409f_4000_0000_0000,
{
    F64Bits { bits: 0x409f_4000_0000_0000 }
}

/// 15 guesses.
pub fn default_rating_k() -> (r: F64Bits)
    ensures
        r.bits == 0x402e_0000_0000_0000,
{
    F64Bits { bits: 0x402e_0000_0000_0000 }
}

pub fn default_provisional_threshold() -> (r: i64)
    ensures
        r == 10,
{
    10
}

/// 1500 points.
pub fn default_baseline_fallback() -> (r: F64Bits)
    ensures
        r.bits == 0x4097_7000_0000_0000,
{
    F64Bits { bits: 0x4097_7000_0000_0000 }
}

impl Default for RatingConfig {
    fn default() -> (r: Self)
        ensures
            r.k.bits == 0x402e_0000_0000_0000,
            r.provisional_threshold == 10,
            r.baseline_fallback.bits == 0x4097_7000_0000_0000,
    {
        RatingConfig {
            k: default_rating_k(),
            provisional_threshold: default_provisional_threshold(),
            baseline_fallback: default_baseline_fallback(),
        }
    }
}

impl Default for SecurityConfig {
    fn default() -> (r: Self)
        ensures
            r.allowed_inviters@.len() == 0,
            r.admin_users@.len() == 0,
    {
        SecurityConfig { allowed_inviters: Vec::new(), admin_users: Vec::new() }
    }
}

pub fn default_enabled_sources() -> (r: Vec<String>)
    ensures
        text::views(r@) == seq!["mapillary"@],
{
    let mut r: Vec<String> = Vec::new();
    r.push(text::owned("mapillary"));
    assert(text::views(r@) =~= seq!["mapillary"@]);
    r
}

pub fn default_mapillary_radius() -> (r: u32)
    ensures
        r == 50_000,
{
    50_000
}

impl Default for MapillaryConfig {
    fn default() -> (r: Self)
        ensures
            r.access_token@.len() == 0,
            r.search_radius == 0,
            r.countries@.len() == 0,
    {
        MapillaryConfig { access_token: String::new(), search_radius: 0, countries: Vec::new() }
    }
}

impl Default for LocalConfig {
    fn default() -> (r: Self)
        ensures
            r.path is None,
    {
        LocalConfig { path: None }
    }
}

} // verus!
