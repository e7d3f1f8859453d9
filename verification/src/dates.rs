//! Calendar days of the date filter and the time stamps that bound them.

use vstd::prelude::*;
use chrono::Datelike;
use chrono::TimeZone;

verus! {

/// A day of the local calendar.
#[derive(Clone, Copy, Debug, PartialEq, Eq, PartialOrd, Ord, Structural)]
pub struct CivilDate {
    pub year: i32,
    pub month: u8,
    pub day: u8,
}

/// An inclusive window of local days; an open end is unbounded.
#[derive(Clone, Copy, Debug, PartialEq, Eq, Structural)]
pub struct DateRange {
    pub start_day: Option<CivilDate>,
    pub end_day: Option<CivilDate>,
}

impl Default for DateRange {
    fn default() -> (r: Self)
        ensures
            r.start_day is None,
            r.end_day is None,
    {
        DateRange { start_day: None, end_day: None }
    }
}

/// The first and last years chrono's `NaiveDate` holds.
pub const MIN_YEAR: i32 = -262143;
pub const MAX_YEAR: i32 = 262142;

/// A leap year of the proleptic Gregorian calendar.
pub open spec fn is_leap(y: int) -> bool {
    (y % 4 == 0 && y % 100 != 0) || y % 400 == 0
}

/// The number of days in month `m` of year `y`.
pub open spec fn month_days(y: int, m: int) -> int {
    if m == 2 {
        if is_leap(y) { 29 } else { 28 }
    } else if m == 4 || m == 6 || m == 9 || m == 11 {
        30
    } else {
        31
    }
}

/// A day that exists in the calendar, in chrono's range of years: the dates
/// `NaiveDate::from_ymd_opt` accepts.
pub open spec fn valid_civil(d: CivilDate) -> bool {
    &&& MIN_YEAR <= d.year <= MAX_YEAR
    &&& 1 <= d.month <= 12
    &&& 1 <= d.day <= month_days(d.year as int, d.month as int)
}

/// The day after `d`, as `NaiveDate::succ_opt` gives it: nothing for a date
/// that does not exist or for the last day chrono holds.
pub open spec fn next_day_spec(d: CivilDate) -> Option<CivilDate> {
    if !valid_civil(d) {
        None
    } else if (d.day as int) < month_days(d.year as int, d.month as int) {
        Some(CivilDate { day: (d.day + 1) as u8, ..d })
    } else if d.month < 12 {
        Some(CivilDate { month: (d.month + 1) as u8, day: 1, ..d })
    } else if d.year < MAX_YEAR {
        Some(CivilDate { year: (d.year + 1) as i32, month: 1, day: 1 })
    } else {
        None
    }
}

/// Whether year `y` is a leap year.
fn leap_exec(y: i32) -> (b: bool)
    requires
        MIN_YEAR <= y <= MAX_YEAR,
    ensures
        b == is_leap(y as int),
{
    let z: u32 = (y as i64 + 400000) as u32;
    assert(z as int == y as int + 400 * 1000);
    assert((y as int + 400 * 1000) % 4 == (y as int) % 4) by (nonlinear_arith);
    assert((y as int + 400 * 1000) % 100 == (y as int) % 100) by (nonlinear_arith);
    assert((y as int + 400 * 1000) % 400 == (y as int) % 400) by (nonlinear_arith);
    (z % 4 == 0 && z % 100 != 0) || z % 400 == 0
}

/// The number of days in month `m` of year `y`.
fn month_days_exec(y: i32, m: u8) -> (n: u8)
    requires
        MIN_YEAR <= y <= MAX_YEAR,
    ensures
        n == month_days(y as int, m as int),
{
    if m == 2 {
        if leap_exec(y) { 29 } else { 28 }
    } else if m == 4 || m == 6 || m == 9 || m == 11 {
        30
    } else {
        31
    }
}

/// Whether `d` is a day of the calendar chrono holds.
pub fn is_valid_civil(d: CivilDate) -> (b: bool)
    ensures
        b == valid_civil(d),
{
    if d.year < MIN_YEAR || d.year > MAX_YEAR || d.month < 1 || d.month > 12 || d.day < 1 {
        return false;
    }
    d.day <= month_days_exec(d.year, d.month)
}

/// The day after `d`; nothing when `d` is no day of the calendar or the
/// last one chrono holds.
pub fn next_day(d: CivilDate) -> (r: Option<CivilDate>)
    ensures
        r == next_day_spec(d),
{
    if !is_valid_civil(d) {
        return None;
    }
    let last = month_days_exec(d.year, d.month);
    if d.day < last {
        Some(CivilDate { day: d.day + 1, ..d })
    } else if d.month < 12 {
        Some(CivilDate { month: d.month + 1, day: 1, ..d })
    } else if d.year < MAX_YEAR {
        Some(CivilDate { year: d.year + 1, month: 1, day: 1 })
    } else {
        None
    }
}

/// The day before `d`, as `NaiveDate::pred_opt` gives it: nothing for a
/// date that does not exist or for the first day chrono holds.
pub open spec fn prev_day_spec(d: CivilDate) -> Option<CivilDate> {
    if !valid_civil(d) {
        None
    } else if d.day > 1 {
        Some(CivilDate { day: (d.day - 1) as u8, ..d })
    } else if d.month > 1 {
        Some(CivilDate { month: (d.month - 1) as u8, day: month_days(d.year as int, d.month - 1) as u8, ..d })
    } else if d.year > MIN_YEAR {
        Some(CivilDate { year: (d.year - 1) as i32, month: 12, day: 31 })
    } else {
        None
    }
}

/// The day `n` days before `d`: nothing when `d` does not exist or the
/// count runs past the first day chrono holds.
pub open spec fn days_before(d: CivilDate, n: nat) -> Option<CivilDate>
    decreases n,
{
    if !valid_civil(d) {
        None
    } else if n == 0 {
        Some(d)
    } else {
        match prev_day_spec(d) {
            Some(p) => days_before(p, (n - 1) as nat),
            None => None,
        }
    }
}

/// The largest day count `chrono::TimeDelta::days` accepts.
pub const MAX_DELTA_DAYS: i64 = 106751991167;

/// Calls `chrono::NaiveDate::from_ymd_opt`, `chrono::TimeDelta::days` and
/// `NaiveDate::checked_sub_signed`, and reads the year, month and day back.
/// Claims what chrono documents: `None` for a date `from_ymd_opt` refuses,
/// else the date `days` days earlier, or `None` when that leaves chrono's
/// range ([`days_before`]). `TimeDelta::days` panics beyond
/// `MAX_DELTA_DAYS`; it is reached only for valid dates, and `requires`
/// leaves that out.
#[verifier::external_body]
fn date_days_before(d: CivilDate, days: i64) -> (r: Option<CivilDate>)
    requires
        0 <= days,
        valid_civil(d) ==> days <= MAX_DELTA_DAYS,
    ensures
        r == days_before(d, days as nat),
{
    let date = chrono::NaiveDate::from_ymd_opt(d.year, d.month as u32, d.day as u32)?;
    let back = date.checked_sub_signed(chrono::TimeDelta::days(days))?;
    Some(CivilDate { year: back.year(), month: back.month() as u8, day: back.day() as u8 })
}

impl DateRange {
    /// The window of `n` days ending on `today`, `today` included (`n = 1`
    /// is today alone, and so is any smaller `n`).
    pub fn last_n_days(today: CivilDate, n: i64) -> (r: Self)
        requires
            n > i64::MIN,
            valid_civil(today) ==> n - 1 <= MAX_DELTA_DAYS,
        ensures
            r.start_day == days_before(today, if n - 1 > 0 { (n - 1) as nat } else { 0 }),
            r.end_day == Some(today),
    {
        let back = if n - 1 > 0 { n - 1 } else { 0 };
        DateRange { start_day: date_days_before(today, back), end_day: Some(today) }
    }
}

/// Calls `chrono::Local::now` and reads the local date. Which day it is
/// depends on the clock and the time zone, so only what holds of every
/// `NaiveDate` is stated: it is a day of the calendar, in chrono's range.
#[verifier::external_body]
fn local_today() -> (d: CivilDate)
    ensures
        valid_civil(d),
{
    let now = chrono::Local::now().date_naive();
    CivilDate { year: now.year(), month: now.month() as u8, day: now.day() as u8 }
}

impl CivilDate {
    /// Today on the local calendar: a day of the calendar.
    pub fn today_local() -> (d: CivilDate)
        ensures
            valid_civil(d),
    {
        local_today()
    }
}

// ------------------------------------------------------------ days since the epoch

/// Leap years before year `y`, counted from year 0 on.
pub open spec fn leaps_before(y: int) -> int {
    (y - 1) / 4 - (y - 1) / 100 + (y - 1) / 400
}

/// Days from 1970-01-01 to the first day of year `y`.
pub open spec fn days_before_year(y: int) -> int {
    365 * (y - 1970) + leaps_before(y) - leaps_before(1970)
}

/// Days from the first of the year to the first of month `m`.
pub open spec fn days_before_month(y: int, m: int) -> int {
    let l: int = if is_leap(y) { 1 } else { 0 };
    if m <= 1 {
        0
    } else if m == 2 {
        31
    } else if m == 3 {
        59 + l
    } else if m == 4 {
        90 + l
    } else if m == 5 {
        120 + l
    } else if m == 6 {
        151 + l
    } else if m == 7 {
        181 + l
    } else if m == 8 {
        212 + l
    } else if m == 9 {
        243 + l
    } else if m == 10 {
        273 + l
    } else if m == 11 {
        304 + l
    } else {
        334 + l
    }
}

/// Days from 1970-01-01 to `d`.
pub open spec fn epoch_day(d: CivilDate) -> int {
    days_before_year(d.year as int) + days_before_month(d.year as int, d.month as int) + d.day - 1
}

/// Milliseconds from the epoch to midnight UTC at the start of `d`.
pub open spec fn utc_midnight_ms(d: CivilDate) -> int {
    epoch_day(d) * 86400000
}

proof fn lemma_leaps_step(y: int)
    ensures
        leaps_before(y + 1) == leaps_before(y) + (if is_leap(y) { 1int } else { 0 }),
{
    assert(y / 4 == (y - 1) / 4 + (if y % 4 == 0 { 1int } else { 0 })) by (nonlinear_arith);
    assert(y / 100 == (y - 1) / 100 + (if y % 100 == 0 { 1int } else { 0 })) by (nonlinear_arith);
    assert(y / 400 == (y - 1) / 400 + (if y % 400 == 0 { 1int } else { 0 })) by (nonlinear_arith);
    assert(y % 400 == 0 ==> y % 100 == 0 && y % 4 == 0) by (nonlinear_arith);
    assert(y % 100 == 0 ==> y % 4 == 0) by (nonlinear_arith);
}

/// The day after a day is one day later: `next_day` steps the calendar by
/// exactly one day, across months and years alike.
pub proof fn lemma_next_day_is_one_day_later(d: CivilDate)
    requires
        next_day_spec(d) is Some,
    ensures
        epoch_day(next_day_spec(d)->0) == epoch_day(d) + 1,
{
    let y = d.year as int;
    let n = next_day_spec(d)->0;
    if (d.day as int) < month_days(y, d.month as int) {
    } else if d.month < 12 {
        assert(d.day as int == month_days(y, d.month as int));
    } else {
        lemma_leaps_step(y);
        assert(d.day == 31);
        assert(n.year == d.year + 1 && n.month == 1 && n.day == 1);
    }
}

/// Calls `chrono::NaiveDate::from_ymd_opt`, then `and_hms_opt(0, 0, 0)`,
/// `Local.from_local_datetime(..).single()` and `timestamp_millis`. Which
/// instant comes back depends on the machine's time zone. What holds of
/// every zone is stated: chrono's `None` for a date `from_ymd_opt` refuses,
/// and, since the result is the local midnight less the zone's offset and a
/// `FixedOffset` lies strictly within a day of UTC, an instant strictly
/// within a day of midnight UTC on that date.
#[verifier::external_body]
fn local_midnight_ms(d: CivilDate) -> (ms: Option<i64>)
    ensures
        !valid_civil(d) ==> ms is None,
        ms matches Some(t) ==> utc_midnight_ms(d) - 86400000 < t < utc_midnight_ms(d) + 86400000,
{
    let date = chrono::NaiveDate::from_ymd_opt(d.year, d.month as u32, d.day as u32)?;
    let naive = date.and_hms_opt(0, 0, 0)?;
    chrono::Local.from_local_datetime(&naive).single().map(|t| t.timestamp_millis())
}

/// The half-open millisecond window `[start, end)` from the midnights that
/// begin the first day and follow the last: an open or unknown start is 0,
/// an open or unknown end is `i64::MAX`.
pub fn range_bounds(start_midnight: Option<i64>, end_midnight: Option<i64>) -> (r: (i64, i64))
    ensures
        r.0 == match start_midnight {
            Some(s) => s,
            None => 0,
        },
        r.1 == match end_midnight {
            Some(e) => e,
            None => i64::MAX,
        },
{
    let start = match start_midnight {
        Some(s) => s,
        None => 0,
    };
    let end = match end_midnight {
        Some(e) => e,
        None => i64::MAX,
    };
    (start, end)
}

/// The days whose local midnights bound a date range: its first day, and
/// the day after its last.
pub open spec fn window_days_spec(range: DateRange) -> (Option<CivilDate>, Option<CivilDate>) {
    (
        match range.start_day {
            Some(d) => if valid_civil(d) { Some(d) } else { None },
            None => None,
        },
        match range.end_day {
            Some(d) => next_day_spec(d),
            None => None,
        },
    )
}

/// The days whose local midnights bound `range`: its first day, if it is a
/// day of the calendar, and the day after its last.
pub fn window_days(range: DateRange) -> (r: (Option<CivilDate>, Option<CivilDate>))
    ensures
        r == window_days_spec(range),
{
    let start = match range.start_day {
        Some(d) => if is_valid_civil(d) { Some(d) } else { None },
        None => None,
    };
    let end = match range.end_day {
        Some(d) => next_day(d),
        None => None,
    };
    (start, end)
}

/// The millisecond window of a date range in the local time zone: the local
/// midnights of the days `window_days` gives, through `range_bounds`. Where
/// there is no such day the window is open: 0 at the start, `i64::MAX` at
/// the end.
pub fn range_to_ms(range: DateRange) -> (r: (i64, i64))
    ensures
        window_days_spec(range).0 is None ==> r.0 == 0,
        window_days_spec(range).1 is None ==> r.1 == i64::MAX,
        range.start_day is None ==> r.0 == 0,
        range.end_day is None ==> r.1 == i64::MAX,
        range.start_day matches Some(d) && !valid_civil(d) ==> r.0 == 0,
        range.end_day matches Some(d) && !valid_civil(d) ==> r.1 == i64::MAX,
        match range.start_day {
            Some(d) => valid_civil(d) ==> (r.0 == 0 || (utc_midnight_ms(d) - 86400000 < r.0
                < utc_midnight_ms(d) + 86400000)),
            None => true,
        },
        match range.end_day {
            Some(d) => next_day_spec(d) is Some ==> (r.1 == i64::MAX || (utc_midnight_ms(d) < r.1
                < utc_midnight_ms(d) + 2 * 86400000)),
            None => true,
        },
{
    let days = window_days(range);
    proof {
        if let Some(e) = range.end_day {
            if next_day_spec(e) is Some {
                lemma_next_day_is_one_day_later(e);
            }
        }
    }
    let start = match days.0 {
        Some(d) => local_midnight_ms(d),
        None => None,
    };
    let end = match days.1 {
        Some(d) => local_midnight_ms(d),
        None => None,
    };
    range_bounds(start, end)
}

/// Whether a time stamp lies in the window `[start, end)`.
pub fn in_window(ms: i64, bounds: (i64, i64)) -> (b: bool)
    ensures
        b == (bounds.0 <= ms && ms < bounds.1),
{
    ms >= bounds.0 && ms < bounds.1
}

/// Whether a time stamp, in milliseconds since the epoch, falls in the
/// date range on the local calendar.
pub fn instant_in_range(ms: i64, range: DateRange) -> (b: bool)
    ensures
        range.start_day is None && range.end_day is None ==> b == (0 <= ms && ms < i64::MAX),
        window_days_spec(range).0 is None && window_days_spec(range).1 is None ==> b == (0 <= ms
            && ms < i64::MAX),
        b && window_days_spec(range).0 is None ==> 0 <= ms,
        b && window_days_spec(range).1 is None ==> ms < i64::MAX,
{
    in_window(ms, range_to_ms(range))
}

} // verus!
