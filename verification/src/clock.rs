//! Durations, countdown bars and times of day.

use vstd::prelude::*;

use crate::state::DayNumber;
use crate::state::UtcInstant;
use crate::text;

verus! {

/// A duration in words: hours and minutes from an hour on, minutes and seconds
/// from a minute on, seconds below that. A part that is zero is left out.
pub open spec fn duration_text(secs: nat) -> Seq<char> {
    if secs >= 3600 {
        let h = secs / 3600;
        let m = (secs % 3600) / 60;
        if m == 0 {
            text::decimal(h) + "h"@
        } else {
            text::decimal(h) + "h "@ + text::decimal(m) + "m"@
        }
    } else if secs >= 60 {
        let m = secs / 60;
        let s = secs % 60;
        if s == 0 {
            text::decimal(m) + "m"@
        } else {
            text::decimal(m) + "m "@ + text::decimal(s) + "s"@
        }
    } else {
        text::decimal(secs) + "s"@
    }
}

/// Formats a duration: 21600 is "6h", 5400 is "1h 30m", 90 is "1m 30s", 45 is "45s".
pub fn format_duration(secs: u64) -> (out: String)
    ensures
        out@ == duration_text(secs as nat),
{
    let mut out = String::new();
    if secs >= 3600 {
        let h: u64 = secs / 3600;
        let m: u64 = (secs % 3600) / 60;
        text::push_decimal(&mut out, h as u128);
        if m == 0 {
            out.append("h");
        } else {
            out.append("h ");
            text::push_decimal(&mut out, m as u128);
            out.append("m");
        }
    } else if secs >= 60 {
        let m: u64 = secs / 60;
        let s: u64 = secs % 60;
        text::push_decimal(&mut out, m as u128);
        if s == 0 {
            out.append("m");
        } else {
            out.append("m ");
            text::push_decimal(&mut out, s as u128);
            out.append("s");
        }
    } else {
        text::push_decimal(&mut out, secs as u128);
        out.append("s");
    }
    assert(out@ =~= duration_text(secs as nat));
    out
}

/// The seconds that the words for a duration still hold: from an hour on, whole
/// minutes.
pub open spec fn shown_secs(secs: nat) -> nat {
    if secs >= 3600 {
        secs / 60 * 60
    } else {
        secs
    }
}

/// What a reader makes of the words for a duration: the seconds so far, and the
/// number that awaits its unit.
spec fn duration_read(s: Seq<char>) -> (nat, nat)
    decreases s.len(),
{
    if s.len() == 0 {
        (0, 0)
    } else {
        let (total, pending) = duration_read(s.drop_last());
        let c = s.last();
        if text::is_digit(c) {
            (total, pending * 10 + text::digit_value(c))
        } else if c == 'h' {
            (total + pending * 3600, 0)
        } else if c == 'm' {
            (total + pending * 60, 0)
        } else if c == 's' {
            (total + pending, 0)
        } else {
            (total, pending)
        }
    }
}

proof fn lemma_read_number(head: Seq<char>, n: nat)
    requires
        duration_read(head).1 == 0,
    ensures
        duration_read(head + text::decimal(n)) == (duration_read(head).0, n),
    decreases n,
{
    let all = head + text::decimal(n);
    if n < 10 {
        assert(all.drop_last() =~= head);
        assert(all.last() == text::digit(n));
    } else {
        lemma_read_number(head, n / 10);
        assert(all.drop_last() =~= head + text::decimal(n / 10));
        assert(all.last() == text::digit(n % 10));
    }
}

#[verifier::rlimit(60)]
#[verifier::spinoff_prover]
proof fn lemma_read_duration(secs: nat)
    ensures
        duration_read(duration_text(secs)) == (shown_secs(secs), 0nat),
{
    reveal_strlit("h");
    reveal_strlit("h ");
    reveal_strlit("m");
    reveal_strlit("m ");
    reveal_strlit("s");
    let t = duration_text(secs);
    let nothing = Seq::<char>::empty();
    if secs >= 60 {
        let (unit, first, second) = if secs >= 3600 {
            ('h', secs / 3600, (secs % 3600) / 60)
        } else {
            ('m', secs / 60, secs % 60)
        };
        lemma_read_number(nothing, first);
        let a = text::decimal(first);
        assert(nothing + a =~= a);
        assert(a.push(unit).drop_last() =~= a);
        let worth = if secs >= 3600 {
            first * 3600
        } else {
            first * 60
        };
        assert(duration_read(a.push(unit)) == (worth, 0nat));
        if second == 0 {
            assert(t =~= a.push(unit));
        } else {
            let b = a.push(unit).push(' ');
            assert(b.drop_last() =~= a.push(unit));
            assert(duration_read(b) == (worth, 0nat));
            lemma_read_number(b, second);
            let c = b + text::decimal(second);
            let last = if secs >= 3600 {
                'm'
            } else {
                's'
            };
            assert(t =~= c.push(last));
            assert(t.drop_last() =~= c);
            assert(shown_secs(secs) == worth + if secs >= 3600 {
                second * 60
            } else {
                second
            });
        }
    } else {
        lemma_read_number(nothing, secs);
        assert(nothing + text::decimal(secs) =~= text::decimal(secs));
        assert(t =~= text::decimal(secs).push('s'));
        assert(t.drop_last() =~= text::decimal(secs));
    }
}

/// The words for a duration give its hours and minutes, its minutes and seconds, or its
/// seconds, and leave out what is zero.
pub proof fn law_durations_in_words(h: nat, m: nat, s: nat)
    requires
        m < 60,
        s < 60,
    ensures
        h > 0 && m > 0 ==> duration_text(h * 3600 + m * 60 + s) == text::decimal(h) + "h "@
            + text::decimal(m) + "m"@,
        h > 0 ==> duration_text(h * 3600 + s) == text::decimal(h) + "h"@,
        m > 0 && s > 0 ==> duration_text(m * 60 + s) == text::decimal(m) + "m "@ + text::decimal(s)
            + "s"@,
        m > 0 ==> duration_text(m * 60) == text::decimal(m) + "m"@,
        duration_text(s) == text::decimal(s) + "s"@,
{
    assert((h * 3600 + m * 60 + s) / 3600 == h && (h * 3600 + m * 60 + s) % 3600 == m * 60 + s);
    assert((m * 60 + s) / 60 == m);
    assert((h * 3600 + s) / 3600 == h && (h * 3600 + s) % 3600 == s);
}

/// Two durations read alike exactly where the seconds that they show are equal: below
/// an hour all of them, from an hour on whole minutes.
pub proof fn law_durations_are_told_apart(a: nat, b: nat)
    ensures
        duration_text(a) == duration_text(b) <==> shown_secs(a) == shown_secs(b),
{
    lemma_read_duration(a);
    lemma_read_duration(b);
    if shown_secs(a) == shown_secs(b) && a >= 3600 {
        assert(a / 3600 == (a / 60) / 60 && b / 3600 == (b / 60) / 60);
        assert((a % 3600) / 60 == (a / 60) % 60 && (b % 3600) / 60 == (b / 60) % 60);
    }
}

/// A bar of `width` cells of which the first `filled` are full.
pub open spec fn bar_text(filled: nat, width: nat) -> Seq<char> {
    text::repeated("█"@, filled) + text::repeated("░"@, (width - filled) as nat)
}

/// How many of ten cells stand for `remaining` out of `total`.
pub open spec fn time_cells(remaining: nat, total: nat) -> nat {
    let denom = if total == 0 { 1nat } else { total };
    let capped = if remaining < denom { remaining } else { denom };
    capped * 10 / denom
}

/// A bar of `width` cells.
pub fn bar(filled: usize, width: usize) -> (out: String)
    requires
        filled <= width,
    ensures
        out@ == bar_text(filled as nat, width as nat),
{
    let mut out = String::new();
    text::push_repeated(&mut out, "█", filled);
    text::push_repeated(&mut out, "░", width - filled);
    assert(out@ =~= bar_text(filled as nat, width as nat));
    out
}

/// The share of the time that is left, as a bar of ten cells.
pub fn time_bar(remaining: u64, total: u64) -> (out: String)
    ensures
        time_cells(remaining as nat, total as nat) <= 10,
        out@ == bar_text(time_cells(remaining as nat, total as nat), 10),
        total > 0 && remaining >= total ==> out@ == bar_text(10, 10),
        total > 0 && remaining < total ==> exists|cells: nat|
            cells < 10 && cells * total <= remaining * 10 < (cells + 1) * total && out@
                == #[trigger] bar_text(cells, 10),
{
    let denom: u64 = if total == 0 {
        1
    } else {
        total
    };
    let capped: u64 = if remaining < denom {
        remaining
    } else {
        denom
    };
    let filled: u128 = (capped as u128 * 10) / denom as u128;
    assert(filled <= 10) by (nonlinear_arith)
        requires
            filled == (capped as int * 10) / (denom as int),
            capped <= denom,
            denom > 0,
    ;
    proof {
        let r = remaining as int;
        let t = total as int;
        if t > 0 && r < t {
            let f = filled as int;
            assert(f == (r * 10) / t);
            assert(f * t <= r * 10 && r * 10 < (f + 1) * t && f < 10) by (nonlinear_arith)
                requires
                    f == (r * 10) / t,
                    0 <= r < t,
            ;
        } else if t > 0 {
            assert((t * 10) / t == 10) by (nonlinear_arith)
                requires
                    t > 0,
            ;
        }
    }
    bar(filled as usize, 10)
}

/// A bar of `width` cells has as many cells, and the first `filled` of them are full.
pub proof fn law_bars_fill_from_the_left(filled: nat, width: nat, i: int)
    requires
        filled <= width,
        0 <= i < width,
    ensures
        bar_text(filled, width).len() == width,
        bar_text(filled, width)[i] == if i < filled {
            '█'
        } else {
            '░'
        },
{
    reveal_strlit("█");
    reveal_strlit("░");
    text::law_repetition_counts("█"@, filled);
    text::law_repetition_counts("░"@, (width - filled) as nat);
}

/// Nanoseconds from 1970-01-01 to the instant.
pub open spec fn nanos_of(t: UtcInstant) -> int {
    t.secs * 1_000_000_000 + t.nanos
}

/// Whole seconds from `now` until `until`, 0 where `until` has passed.
pub fn seconds_until(until: UtcInstant, now: UtcInstant) -> (r: u64)
    requires
        until.secs - now.secs <= i64::MAX,
    ensures
        nanos_of(until) <= nanos_of(now) ==> r == 0,
        nanos_of(until) > nanos_of(now) ==> r == (nanos_of(until) - nanos_of(now)) / 1_000_000_000,
        until.secs < now.secs && until.nanos < 1_000_000_000 && now.nanos < 1_000_000_000 ==> r
            == 0,
        until.secs >= now.secs && until.nanos < 1_000_000_000 && now.nanos <= until.nanos ==> r
            == until.secs - now.secs,
        until.secs > now.secs && until.nanos < now.nanos < 1_000_000_000 ==> r + 1 == until.secs
            - now.secs,
{
    let a: i128 = until.secs as i128 * 1_000_000_000 + until.nanos as i128;
    let b: i128 = now.secs as i128 * 1_000_000_000 + now.nanos as i128;
    if a <= b {
        0
    } else {
        ((a - b) / 1_000_000_000) as u64
    }
}

/// What is left of a time of `timeout` seconds that began at `started`, counting
/// whole seconds; nothing where it is over, all of it where it has not begun.
pub fn remaining_secs(started: UtcInstant, now: UtcInstant, timeout: u64) -> (r: u64)
    ensures
        ({
            let elapsed = if nanos_of(now) <= nanos_of(started) {
                0
            } else {
                (nanos_of(now) - nanos_of(started)) / 1_000_000_000
            };
            r == if elapsed < timeout {
                timeout - elapsed
            } else {
                0
            }
        }),
        r <= timeout,
        now.secs < started.secs && now.nanos < 1_000_000_000 && started.nanos < 1_000_000_000 ==> r
            == timeout,
        now.secs >= started.secs && started.nanos <= now.nanos < 1_000_000_000 ==> (now.secs
            - started.secs <= timeout ==> r + (now.secs - started.secs) == timeout) && (now.secs
            - started.secs > timeout ==> r == 0),
{
    let a: i128 = now.secs as i128 * 1_000_000_000 + now.nanos as i128;
    let b: i128 = started.secs as i128 * 1_000_000_000 + started.nanos as i128;
    let elapsed: i128 = if a <= b {
        0
    } else {
        (a - b) / 1_000_000_000
    };
    if elapsed < timeout as i128 {
        timeout - elapsed as u64
    } else {
        0
    }
}

// ── Local time ───────────────────────────────────────────────────────────────

/// A local date and the seconds since local midnight.
#[derive(Clone, Copy, Debug, PartialEq, Eq, Structural)]
pub struct LocalClock {
    pub day: DayNumber,
    pub secs: u32,
}

/// Date and second of the day in a time zone at an instant, as `chrono` and
/// `chrono_tz` give them; nothing where there is no such zone.
pub uninterp spec fn zoned_clock(zone: Seq<char>, unix_secs: i64) -> Option<(i32, u32)>;

/// Converts with `chrono_tz::Tz::from_str`, `chrono::DateTime::from_timestamp` and
/// `with_timezone`. Date and time are claimed to depend on the zone and the
/// instant alone, the second of the day to be below 86400, and "UTC" to be a zone.
#[verifier::external_body]
fn clock_in_zone(zone: &str, unix_secs: i64) -> (r: Option<(i32, u32)>)
    requires
        -8_000_000_000_000 <= unix_secs <= 8_000_000_000_000,
    ensures
        r == zoned_clock(zone@, unix_secs),
        zone@ == "UTC"@ ==> r is Some,
        r matches Some((_, secs)) ==> secs < 86400,
{
    let tz: chrono_tz::Tz = zone.parse().ok()?;
    let utc = chrono::DateTime::from_timestamp(unix_secs, 0)?;
    let local = utc.with_timezone(&tz);
    let day = chrono::Datelike::num_days_from_ce(&local);
    Some((day, chrono::Timelike::num_seconds_from_midnight(&local)))
}

/// Date and second of the day in a time zone; a zone that is not known counts as
/// UTC.
pub open spec fn clock_at(zone: Seq<char>, unix_secs: i64) -> Option<(i32, u32)> {
    match zoned_clock(zone, unix_secs) {
        Some(c) => Some(c),
        None => zoned_clock("UTC"@, unix_secs),
    }
}

/// The local date and time in a zone; a zone that is not known counts as UTC.
pub fn local_clock(zone: &str, unix_secs: i64) -> (r: LocalClock)
    requires
        -8_000_000_000_000 <= unix_secs <= 8_000_000_000_000,
    ensures
        Some((r.day.day, r.secs)) == clock_at(zone@, unix_secs),
        r.secs < 86400,
        zoned_clock(zone@, unix_secs) matches Some((day, secs)) ==> r.day.day == day && r.secs
            == secs,
        zoned_clock(zone@, unix_secs) is None ==> zoned_clock("UTC"@, unix_secs) == Some(
            (r.day.day, r.secs),
        ),
{
    let (day, secs) = match clock_in_zone(zone, unix_secs) {
        Some(c) => c,
        None => match clock_in_zone("UTC", unix_secs) {
            Some(c) => c,
            None => (0, 0),
        },
    };
    LocalClock { day: DayNumber { day }, secs }
}

/// The ISO 8601 text of a date, as `chrono` prints it.
pub uninterp spec fn date_text(day: i32) -> Seq<char>;

/// Prints with `chrono::NaiveDate`'s `Display`. The text is claimed to depend on
/// the day number alone; it is empty where there is no such date.
#[verifier::external_body]
fn print_date(day: i32) -> (r: String)
    ensures
        r@ == date_text(day),
{
    match chrono::NaiveDate::from_num_days_from_ce_opt(day) {
        Some(d) => d.to_string(),
        None => String::new(),
    }
}

/// The text of a date.
pub fn date_name(d: DayNumber) -> (r: String)
    ensures
        r@ == date_text(d.day),
{
    print_date(d.day)
}

/// A time of day as "HH:MM".
pub open spec fn hour_minute(h: nat, m: nat) -> Seq<char> {
    text::two_digits(h) + ":"@ + text::two_digits(m)
}

/// Appends a time of day as "HH:MM".
pub fn push_hour_minute(out: &mut String, h: u32, m: u32)
    ensures
        final(out)@ == old(out)@ + hour_minute(h as nat, m as nat),
        final(out)@ == old(out)@ + (text::two_digits(h as nat) + ":"@ + text::two_digits(m as nat)),
{
    text::push_two_digits(out, h as u128);
    out.append(":");
    text::push_two_digits(out, m as u128);
    assert(out@ =~= old(out)@ + hour_minute(h as nat, m as nat));
}

/// A time of day as "HH:MM".
pub fn hour_minute_text(h: u32, m: u32) -> (out: String)
    ensures
        out@ == hour_minute(h as nat, m as nat),
        h < 100 && m < 100 ==> out@ == seq![
            (48 + h / 10) as char,
            (48 + h % 10) as char,
            ':',
            (48 + m / 10) as char,
            (48 + m % 10) as char,
        ],
{
    let mut out = String::new();
    push_hour_minute(&mut out, h, m);
    assert(out@ =~= hour_minute(h as nat, m as nat));
    proof {
        reveal_strlit(":");
        reveal_with_fuel(text::decimal, 3);
        if h < 100 && m < 100 {
            assert(text::two_digits(h as nat) =~= seq![
                (48 + h / 10) as char,
                (48 + h % 10) as char,
            ]);
            assert(text::two_digits(m as nat) =~= seq![
                (48 + m / 10) as char,
                (48 + m % 10) as char,
            ]);
            assert(out@ =~= seq![
                (48 + h / 10) as char,
                (48 + h % 10) as char,
                ':',
                (48 + m / 10) as char,
                (48 + m % 10) as char,
            ]);
        }
    }
    out
}

} // verus!
