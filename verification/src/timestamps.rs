//! How the time of a dump is written in its header.

use vstd::prelude::*;
use chrono::Datelike;
use crate::text::digit_char;

verus! {

/// The pattern for a dump of today: hours, minutes, seconds, milliseconds.
pub const TIME_FORMAT: &'static str = "%H:%M:%S.%3f";

/// The pattern for an older dump: the day and month in front of the time.
pub const DATETIME_FORMAT: &'static str = "%_d %b %H:%M:%S.%3f";

/// The UTC calendar day (year, month, day) of a moment given in
/// milliseconds since the Unix epoch, in the proleptic Gregorian calendar;
/// `None` outside chrono's years -262143 to 262142.  The day count is turned
/// into a date by whole 400-year cycles (146097 days each), counted from
/// 1 March of year 0.
pub open spec fn utc_day_of(epoch_ms: i64) -> Option<(i32, u32, u32)> {
    let z = epoch_ms as int / 86_400_000 + 719_468;
    let era = z / 146_097;
    let doe = z - era * 146_097;
    let yoe = (doe - doe / 1460 + doe / 36_524 - doe / 146_096) / 365;
    let doy = doe - (365 * yoe + yoe / 4 - yoe / 100);
    let mp = (5 * doy + 2) / 153;
    let day = doy - (153 * mp + 2) / 5 + 1;
    let month = if mp < 10 {
        mp + 3
    } else {
        mp - 9
    };
    let year = yoe + era * 400 + if month <= 2 {
        1int
    } else {
        0int
    };
    if -262_143 <= year <= 262_142 {
        Some((year as i32, month as u32, day as u32))
    } else {
        None
    }
}

/// The moment written with a strftime pattern in the Dutch locale.
pub uninterp spec fn dutch_utc_text(epoch_ms: i64, pattern: Seq<char>) -> Seq<char>;

/// The two patterns the header uses.
pub open spec fn known_pattern(pattern: Seq<char>) -> bool {
    pattern == TIME_FORMAT@ || pattern == DATETIME_FORMAT@
}

/// `chrono::DateTime::from_timestamp_millis` followed by `date_naive`: the
/// UTC day of the moment, as year, month and day (see [`utc_day_of`]).
#[verifier::external_body]
fn utc_day(epoch_ms: i64) -> (r: Option<(i32, u32, u32)>)
    ensures
        r == utc_day_of(epoch_ms),
{
    match chrono::DateTime::from_timestamp_millis(epoch_ms) {
        Some(moment) => {
            let day = moment.date_naive();
            Some((day.year(), day.month(), day.day()))
        },
        None => None,
    }
}

/// `chrono::Local::now` followed by `date_naive`: today's date on this
/// machine's clock and time zone.  Nothing is claimed of it.
#[verifier::external_body]
fn local_today() -> (i32, u32, u32) {
    let day = chrono::Local::now().date_naive();
    (day.year(), day.month(), day.day())
}

/// `chrono::DateTime::format_localized` with the `nl_NL` locale, on the UTC
/// moment given in milliseconds since the Unix epoch.
#[verifier::external_body]
fn format_dutch(epoch_ms: i64, pattern: &str) -> (r: String)
    requires
        utc_day_of(epoch_ms) is Some,
        known_pattern(pattern@),
    ensures
        r@ == dutch_utc_text(epoch_ms, pattern@),
{
    match chrono::DateTime::from_timestamp_millis(epoch_ms) {
        Some(moment) => moment.format_localized(pattern, chrono::Locale::nl_NL).to_string(),
        None => String::new(),
    }
}

/// The header's time of a dump sent at `epoch_ms`, given today's date:
/// nothing for a moment outside chrono's range, the time alone when the
/// moment's UTC day is today, and the day and month with it otherwise.
pub open spec fn spec_datetime_label(epoch_ms: i64, today: (i32, u32, u32)) -> Seq<char> {
    match utc_day_of(epoch_ms) {
        None => Seq::empty(),
        Some(day) => if day == today {
            dutch_utc_text(epoch_ms, TIME_FORMAT@)
        } else {
            dutch_utc_text(epoch_ms, DATETIME_FORMAT@)
        },
    }
}

/// The header's time of a dump given today's date (see
/// [`spec_datetime_label`]).
pub fn datetime_label(epoch_ms: i64, today: (i32, u32, u32)) -> (r: String)
    ensures
        r@ == spec_datetime_label(epoch_ms, today),
{
    match utc_day(epoch_ms) {
        None => String::new(),
        Some(day) => {
            if day.0 == today.0 && day.1 == today.1 && day.2 == today.2 {
                format_dutch(epoch_ms, TIME_FORMAT)
            } else {
                format_dutch(epoch_ms, DATETIME_FORMAT)
            }
        },
    }
}

/// The header's time of a dump, with today read from the clock (see
/// [`spec_datetime_label`]); which day the clock gives is not stated.
pub fn datetime_format(epoch_ms: i64) -> (r: String)
    ensures
        exists|today: (i32, u32, u32)| r@ == spec_datetime_label(epoch_ms, today),
{
    let today = local_today();
    let r = datetime_label(epoch_ms, today);
    assert(r@ == spec_datetime_label(epoch_ms, today));
    r
}

/// `chrono::Utc::now` in milliseconds since the Unix epoch.  Nothing is
/// claimed of the clock.
#[verifier::external_body]
fn clock_now_ms() -> i64 {
    chrono::Utc::now().timestamp_millis()
}

/// A dump is fresh (and marked so) for fifteen seconds after it was sent; a
/// dump whose time is outside chrono's range counts as sent just now.
pub open spec fn spec_is_fresh(epoch_ms: i64, now_ms: i64) -> bool {
    match utc_day_of(epoch_ms) {
        None => true,
        Some(_) => now_ms - epoch_ms < 15000,
    }
}

/// Whether a dump sent at `epoch_ms` is fresh at `now_ms` (see
/// [`spec_is_fresh`]).
pub fn is_fresh(epoch_ms: i64, now_ms: i64) -> (r: bool)
    ensures
        r == spec_is_fresh(epoch_ms, now_ms),
{
    match utc_day(epoch_ms) {
        None => true,
        Some(_) => (now_ms as i128) - (epoch_ms as i128) < 15000,
    }
}

/// Whether a dump is fresh now (see [`spec_is_fresh`]); which time the
/// clock gives is not stated.
pub fn is_fresh_now(epoch_ms: i64) -> (r: bool)
    ensures
        exists|now: i64| r == spec_is_fresh(epoch_ms, now),
{
    let now = clock_now_ms();
    is_fresh(epoch_ms, now)
}

/// Two decimal digits of `n` (below 100).
pub open spec fn two_digits(n: int) -> Seq<char> {
    seq![digit_char((n / 10) as nat), digit_char((n % 10) as nat)]
}

/// Three decimal digits of `n` (below 1000).
pub open spec fn three_digits(n: int) -> Seq<char> {
    seq![digit_char((n / 100) as nat), digit_char((n / 10 % 10) as nat), digit_char((n % 10) as nat)]
}

/// `%H:%M:%S.%3f` of the moment `ms` milliseconds after the Unix epoch, on
/// a clock that shows UTC: hours, minutes, seconds and milliseconds of the
/// day, zero-padded.
pub open spec fn clock_text(ms: int) -> Seq<char> {
    let t = ms % 86_400_000;
    two_digits(t / 3_600_000) + seq![':'] + two_digits(t / 60_000 % 60) + seq![':'] + two_digits(
        t / 1000 % 60,
    ) + seq!['.'] + three_digits(t % 1000)
}

/// `text` is the clock text of the moment `epoch_ms` under some offset of
/// whole seconds, less than a day either way.
pub open spec fn shifted_clock(epoch_ms: i64, text: Seq<char>) -> bool {
    exists|offset: int|
        -86_400 < offset < 86_400 && text == #[trigger] clock_text(epoch_ms + offset * 1000)
}

/// `chrono::DateTime::with_timezone(&Local)` followed by `format` with
/// `%H:%M:%S.%3f`: the moment's time of day on this machine's time zone,
/// which is a UTC clock shifted by the zone's offset at that moment (whole
/// seconds, less than a day either way).  Which offset the machine's time
/// zone gives is not stated.
#[verifier::external_body]
fn local_time_text(epoch_ms: i64) -> (r: String)
    ensures
        utc_day_of(epoch_ms) is Some ==> shifted_clock(epoch_ms, r@),
{
    match chrono::DateTime::from_timestamp_millis(epoch_ms) {
        Some(moment) => moment.with_timezone(&chrono::Local).format(TIME_FORMAT).to_string(),
        None => String::new(),
    }
}

/// The time shown beside each dump in the diff window: the local time of
/// day (see [`clock_text`]), under an offset of less than a day that the
/// machine's time zone decides, and nothing for a moment outside chrono's
/// range.
pub fn diff_time_label(epoch_ms: i64) -> (r: String)
    ensures
        utc_day_of(epoch_ms) is None ==> r@ == Seq::<char>::empty(),
        utc_day_of(epoch_ms) is Some ==> shifted_clock(epoch_ms, r@),
        utc_day_of(epoch_ms) is Some ==> r@.len() == 12 && r@[2] == ':' && r@[5] == ':' && r@[8]
            == '.',
{
    match utc_day(epoch_ms) {
        None => String::new(),
        Some(_) => {
            let r = local_time_text(epoch_ms);
            proof {
                let offset = choose|offset: int|
                    -86_400 < offset < 86_400 && r@ == #[trigger] clock_text(epoch_ms + offset * 1000);
                assert(r@ == clock_text(epoch_ms + offset * 1000));
            }
            r
        },
    }
}

} // verus!
